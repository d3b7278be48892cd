//! The tag registry of one repository view: tag names, each with what it
//! points to, kept in listing order.

use crate::name_order::{
    lemma_name_lt_irreflexive, lemma_name_lt_transitive, lemma_sorted_listing_is_unique, name_lt,
    order_names, strictly_sorted, NameOrder,
};
use crate::ref_target::{RefTarget, TargetView};
use crate::string_pattern::{
    matches_any, pattern_views, selected_by, selects, PatternView, StringPattern,
};
use vstd::prelude::*;
use vstd::seq_lib::seq_to_set_is_finite;

verus! {

/// One tag: its name and what it points to.
#[derive(Debug, PartialEq, Eq)]
struct TagEntry {
    name: String,
    target: RefTarget,
}

/// The names of `entries`, in their order.
spec fn names_of(entries: Seq<TagEntry>) -> Seq<Seq<char>> {
    Seq::new(entries.len(), |i: int| entries[i].name@)
}

/// What a registry demands of its entries: names strictly ascending, so that
/// none occurs twice; no name empty; no target absent.
spec fn entries_ok(entries: Seq<TagEntry>) -> bool {
    &&& strictly_sorted(names_of(entries))
    &&& forall|i: int| 0 <= i < entries.len() ==> (#[trigger] entries[i]).name@.len() > 0
    &&& forall|i: int| 0 <= i < entries.len() ==> !((#[trigger] entries[i]).target@ is Absent)
}

/// `name` is the name of one of `entries`.
spec fn names_entry(entries: Seq<TagEntry>, name: Seq<char>) -> bool {
    exists|i: int| 0 <= i < entries.len() && (#[trigger] entries[i]).name@ == name
}

/// An index at which `entries` holds `name`, where there is one.
spec fn index_of_name(entries: Seq<TagEntry>, name: Seq<char>) -> int {
    choose|i: int| 0 <= i < entries.len() && (#[trigger] entries[i]).name@ == name
}

/// The mapping that `entries` stand for.
spec fn table_of(entries: Seq<TagEntry>) -> Map<Seq<char>, TargetView> {
    Map::new(
        |name: Seq<char>| names_entry(entries, name),
        |name: Seq<char>| entries[index_of_name(entries, name)].target@,
    )
}

/// Among well-formed entries a name is held by one entry only.
proof fn lemma_names_differ(entries: Seq<TagEntry>, i: int, j: int)
    requires
        entries_ok(entries),
        0 <= i < entries.len(),
        0 <= j < entries.len(),
        entries[i].name@ == entries[j].name@,
    ensures
        i == j,
{
    let names = names_of(entries);
    lemma_name_lt_irreflexive(names[i]);
    if i < j {
        assert(name_lt(names[i], names[j]));
    } else if j < i {
        assert(name_lt(names[j], names[i]));
    }
}

/// The table maps the name of each entry to the target of that entry.
proof fn lemma_table_at(entries: Seq<TagEntry>, i: int)
    requires
        entries_ok(entries),
        0 <= i < entries.len(),
    ensures
        table_of(entries).dom().contains(entries[i].name@),
        table_of(entries)[entries[i].name@] == entries[i].target@,
{
    let name = entries[i].name@;
    assert(names_entry(entries, name));
    let chosen = index_of_name(entries, name);
    lemma_names_differ(entries, i, chosen);
}

/// Where `name` stands among `entries`, or would stand: every earlier name
/// sorts before it, and the name at `at`, unless it is `name` itself, after.
spec fn stands_at(entries: Seq<TagEntry>, name: Seq<char>, at: int, found: bool) -> bool {
    &&& 0 <= at <= entries.len()
    &&& forall|j: int| 0 <= j < at ==> name_lt(#[trigger] names_of(entries)[j], name)
    &&& forall|j: int|
        at + (if found { 1int } else { 0int }) <= j < entries.len() ==> name_lt(
            name,
            #[trigger] names_of(entries)[j],
        )
    &&& found ==> at < entries.len() && entries[at].name@ == name
}

/// A name that no entry holds is outside the table.
proof fn lemma_table_without(entries: Seq<TagEntry>, name: Seq<char>, at: int)
    requires
        entries_ok(entries),
        stands_at(entries, name, at, false),
    ensures
        !table_of(entries).dom().contains(name),
{
    if names_entry(entries, name) {
        let i = index_of_name(entries, name);
        lemma_name_lt_irreflexive(name);
        assert(names_of(entries)[i] == name);
    }
}

/// Putting a new entry where its name stands keeps the entries well formed
/// and adds its name and target to the table.
proof fn lemma_insert_entry(entries: Seq<TagEntry>, at: int, entry: TagEntry)
    requires
        entries_ok(entries),
        stands_at(entries, entry.name@, at, false),
        entry.name@.len() > 0,
        !(entry.target@ is Absent),
    ensures
        entries_ok(entries.insert(at, entry)),
        table_of(entries.insert(at, entry)) == table_of(entries).insert(
            entry.name@,
            entry.target@,
        ),
{
    let grown = entries.insert(at, entry);
    let names = names_of(entries);
    let grown_names = names_of(grown);
    assert forall|i: int, j: int| 0 <= i < j < grown.len() implies name_lt(
        grown_names[i],
        grown_names[j],
    ) by {
        let from_i = if i < at { i } else { i - 1 };
        let from_j = if j < at { j } else { j - 1 };
        if i == at {
            assert(grown_names[j] == names[from_j]);
        } else if j == at {
            assert(grown_names[i] == names[from_i]);
        } else {
            assert(grown_names[i] == names[from_i]);
            assert(grown_names[j] == names[from_j]);
        }
    }
    assert(entries_ok(grown));
    let before = table_of(entries).insert(entry.name@, entry.target@);
    let after = table_of(grown);
    assert forall|name: Seq<char>| before.dom().contains(name) == after.dom().contains(
        name,
    ) by {
        if names_entry(entries, name) {
            let i = index_of_name(entries, name);
            let to = if i < at { i } else { i + 1 };
            assert(grown[to].name@ == name);
        }
        if name == entry.name@ {
            assert(grown[at].name@ == name);
        }
        if names_entry(grown, name) {
            let i = index_of_name(grown, name);
            if i != at {
                let from = if i < at { i } else { i - 1 };
                assert(entries[from].name@ == name);
            }
        }
    }
    assert forall|name: Seq<char>| before.dom().contains(name) implies before[name]
        == after[name] by {
        let i = index_of_name(grown, name);
        lemma_table_at(grown, i);
        if i != at {
            let from = if i < at { i } else { i - 1 };
            assert(entries[from] == grown[i]);
            lemma_table_at(entries, from);
            lemma_table_without(entries, entry.name@, at);
        }
    }
    assert(before =~= after);
}

/// Giving the entry at `at` a new target keeps the entries well formed and
/// changes the table at its name alone.
proof fn lemma_replace_entry(entries: Seq<TagEntry>, at: int, entry: TagEntry)
    requires
        entries_ok(entries),
        0 <= at < entries.len(),
        entries[at].name@ == entry.name@,
        !(entry.target@ is Absent),
    ensures
        entries_ok(entries.update(at, entry)),
        table_of(entries.update(at, entry)) == table_of(entries).insert(
            entry.name@,
            entry.target@,
        ),
{
    let changed = entries.update(at, entry);
    assert(names_of(changed) =~= names_of(entries));
    assert(entries_ok(changed));
    let before = table_of(entries).insert(entry.name@, entry.target@);
    let after = table_of(changed);
    assert forall|name: Seq<char>| before.dom().contains(name) == after.dom().contains(
        name,
    ) by {
        if names_entry(entries, name) {
            let i = index_of_name(entries, name);
            assert(changed[i].name@ == name);
        }
        if name == entry.name@ {
            assert(changed[at].name@ == name);
        }
        if names_entry(changed, name) {
            let i = index_of_name(changed, name);
            assert(entries[i].name@ == name);
        }
    }
    assert forall|name: Seq<char>| before.dom().contains(name) implies before[name]
        == after[name] by {
        let i = index_of_name(changed, name);
        lemma_table_at(changed, i);
        if i != at {
            assert(entries[i] == changed[i]);
            lemma_table_at(entries, i);
            if name == entry.name@ {
                lemma_names_differ(entries, i, at);
            }
        }
    }
    assert(before =~= after);
}

/// Taking the entry at `at` away keeps the entries well formed and takes its
/// name out of the table.
proof fn lemma_remove_entry(entries: Seq<TagEntry>, at: int)
    requires
        entries_ok(entries),
        0 <= at < entries.len(),
    ensures
        entries_ok(entries.remove(at)),
        table_of(entries.remove(at)) == table_of(entries).remove(entries[at].name@),
{
    let shrunk = entries.remove(at);
    let names = names_of(entries);
    let shrunk_names = names_of(shrunk);
    assert forall|i: int, j: int| 0 <= i < j < shrunk.len() implies name_lt(
        shrunk_names[i],
        shrunk_names[j],
    ) by {
        let from_i = if i < at { i } else { i + 1 };
        let from_j = if j < at { j } else { j + 1 };
        assert(shrunk_names[i] == names[from_i]);
        assert(shrunk_names[j] == names[from_j]);
    }
    assert(entries_ok(shrunk));
    let before = table_of(entries).remove(entries[at].name@);
    let after = table_of(shrunk);
    assert forall|name: Seq<char>| before.dom().contains(name) == after.dom().contains(
        name,
    ) by {
        if names_entry(entries, name) && name != entries[at].name@ {
            let i = index_of_name(entries, name);
            let to = if i < at { i } else { i - 1 };
            assert(shrunk[to].name@ == name);
        }
        if names_entry(shrunk, name) {
            let i = index_of_name(shrunk, name);
            let from = if i < at { i } else { i + 1 };
            assert(entries[from].name@ == name);
            if name == entries[at].name@ {
                lemma_names_differ(entries, from, at);
            }
        }
    }
    assert forall|name: Seq<char>| before.dom().contains(name) implies before[name]
        == after[name] by {
        let i = index_of_name(shrunk, name);
        let from = if i < at { i } else { i + 1 };
        lemma_table_at(shrunk, i);
        assert(entries[from] == shrunk[i]);
        lemma_table_at(entries, from);
    }
    assert(before =~= after);
}

/// What `name` points to in `tags`: the target kept for it, or `Absent`
/// where no such tag exists.
pub open spec fn target_in(tags: Map<Seq<char>, TargetView>, name: Seq<char>) -> TargetView {
    if tags.dom().contains(name) {
        tags[name]
    } else {
        TargetView::Absent
    }
}

/// Whatever is kept of a strictly ascending listing is strictly ascending.
pub proof fn lemma_filter_keeps_order(names: Seq<Seq<char>>, keep: spec_fn(Seq<char>) -> bool)
    requires
        strictly_sorted(names),
    ensures
        strictly_sorted(names.filter(keep)),
{
    let kept = names.filter(keep);
    assert forall|i: int, j: int| 0 <= i < j < kept.len() implies name_lt(kept[i], kept[j]) by {
        lemma_filter_places(names, keep, i, j);
    }
}

/// Two places of a filtered listing come from two places of the listing, in
/// the same order.
proof fn lemma_filter_places(
    names: Seq<Seq<char>>,
    keep: spec_fn(Seq<char>) -> bool,
    i: int,
    j: int,
)
    requires
        strictly_sorted(names),
        0 <= i < j < names.filter(keep).len(),
    ensures
        name_lt(names.filter(keep)[i], names.filter(keep)[j]),
    decreases names.len(),
{
    reveal(Seq::filter);
    let shorter = names.drop_last();
    let kept = shorter.filter(keep);
    assert(strictly_sorted(shorter));
    if j < kept.len() {
        lemma_filter_places(shorter, keep, i, j);
    } else {
        assert(names.filter(keep)[j] == names.last());
        assert(names.filter(keep)[i] == kept[i]);
        assert(kept.contains(kept[i]));
        shorter.lemma_filter_contains_rev(keep, kept[i]);
        let from = choose|from: int| 0 <= from < shorter.len() && shorter[from] == kept[i];
        assert(name_lt(names[from], names[names.len() - 1]));
    }
}

/// Where no name of a listing is selected, nothing is listed.
pub proof fn lemma_nothing_selected_lists_nothing(
    listing: Seq<Seq<char>>,
    patterns: Seq<PatternView>,
)
    requires
        forall|i: int| 0 <= i < listing.len() ==> !selects(patterns, #[trigger] listing[i]),
    ensures
        listing.filter(selected_by(patterns)) == Seq::<Seq<char>>::empty(),
{
    let kept = listing.filter(selected_by(patterns));
    if kept.len() > 0 {
        listing.lemma_filter_pred(selected_by(patterns), 0);
        assert(kept.contains(kept[0]));
        listing.lemma_filter_contains_rev(selected_by(patterns), kept[0]);
    }
    assert(kept =~= Seq::<Seq<char>>::empty());
}

/// The tags of one repository view.
#[derive(Debug, PartialEq, Eq)]
pub struct TagRegistry {
    entries: Vec<TagEntry>,
}

impl View for TagRegistry {
    type V = Map<Seq<char>, TargetView>;

    /// The tags that exist, each name with what it points to.
    closed spec fn view(&self) -> Map<Seq<char>, TargetView> {
        table_of(self.entries@)
    }
}

impl TagRegistry {
    /// Holds of every registry: its names are strictly ascending in the
    /// listing order, none is empty, and none points to nothing.
    #[verifier::type_invariant]
    pub closed spec fn well_formed(&self) -> bool {
        entries_ok(self.entries@)
    }

    /// The names of the tags, in the order in which they are listed.
    pub closed spec fn listing(&self) -> Seq<Seq<char>> {
        names_of(self.entries@)
    }

    /// What `name` points to: the target kept for it, or `Absent` where no
    /// such tag exists.
    pub open spec fn target_of(&self, name: Seq<char>) -> TargetView {
        target_in(self@, name)
    }

    /// In a well-formed registry the listing is strictly ascending and holds
    /// the names of the tags that exist, each once, and no other; no name is
    /// empty and no tag that exists points to nothing.
    pub proof fn lemma_listing(&self)
        requires
            self.well_formed(),
        ensures
            strictly_sorted(self.listing()),
            self@.dom() == self.listing().to_set(),
            self@.dom().finite(),
            self@.dom().len() == self.listing().len(),
            forall|name: Seq<char>| self@.dom().contains(name) ==> name.len() > 0,
            forall|name: Seq<char>| self@.dom().contains(name) ==> !(self@[name] is Absent),
    {
        let entries = self.entries@;
        let names = names_of(entries);
        assert forall|name: Seq<char>| names.contains(name) <==> table_of(entries).dom().contains(
            name,
        ) by {
            if names.contains(name) {
                let i = choose|i: int| 0 <= i < names.len() && names[i] == name;
                assert(entries[i].name@ == name);
            }
            if names_entry(entries, name) {
                let i = index_of_name(entries, name);
                assert(names[i] == name);
            }
        }
        assert(table_of(entries).dom() =~= names.to_set());
        assert forall|name: Seq<char>| table_of(entries).dom().contains(name) implies name.len() > 0
            && !(table_of(entries)[name] is Absent) by {
            let i = index_of_name(entries, name);
            lemma_table_at(entries, i);
        }
        assert forall|i: int, j: int|
            0 <= i < names.len() && 0 <= j < names.len() && i != j implies names[i]
            != names[j] by {
            lemma_name_lt_irreflexive(names[i]);
            if i < j {
                assert(name_lt(names[i], names[j]));
            } else {
                assert(name_lt(names[j], names[i]));
            }
        }
        names.unique_seq_to_set();
        seq_to_set_is_finite(names);
    }

    /// The tags that exist decide the listing: two well-formed registries
    /// with the same tags list them alike.
    pub proof fn lemma_listing_is_determined(&self, other: &TagRegistry)
        requires
            self.well_formed(),
            other.well_formed(),
            self@.dom() == other@.dom(),
        ensures
            self.listing() == other.listing(),
    {
        self.lemma_listing();
        other.lemma_listing();
        assert forall|name: Seq<char>|
            self.listing().contains(name) <==> other.listing().contains(name) by {
            assert(self.listing().to_set().contains(name) == self.listing().contains(name));
            assert(other.listing().to_set().contains(name) == other.listing().contains(name));
        }
        lemma_sorted_listing_is_unique(self.listing(), other.listing());
    }

    /// The registry without tags.
    pub fn new() -> (registry: Self)
        ensures
            registry@ == Map::<Seq<char>, TargetView>::empty(),
            registry.listing() == Seq::<Seq<char>>::empty(),
    {
        let registry = TagRegistry { entries: Vec::new() };
        assert(registry@ =~= Map::<Seq<char>, TargetView>::empty());
        assert(registry.listing() =~= Seq::<Seq<char>>::empty());
        registry
    }

    /// The number of tags.
    pub fn len(&self) -> (count: usize)
        ensures
            count == self@.dom().len(),
            count == self.listing().len(),
    {
        proof {
            use_type_invariant(self);
            self.lemma_listing();
        }
        self.entries.len()
    }

    /// Whether there is no tag.
    pub fn is_empty(&self) -> (empty: bool)
        ensures
            empty == (self@.dom().len() == 0),
            empty == (self.listing().len() == 0),
    {
        proof {
            use_type_invariant(self);
            self.lemma_listing();
        }
        self.entries.len() == 0
    }

    /// Finds by bisection where `name` stands in the listing, and whether it
    /// is there.
    fn position(&self, name: &str) -> (place: (usize, bool))
        ensures
            stands_at(self.entries@, name@, place.0 as int, place.1),
    {
        proof {
            use_type_invariant(self);
        }
        let ghost names = names_of(self.entries@);
        let mut low: usize = 0;
        let mut high: usize = self.entries.len();
        while low < high
            invariant
                low <= high <= self.entries.len(),
                names == names_of(self.entries@),
                strictly_sorted(names),
                forall|j: int| 0 <= j < low ==> name_lt(#[trigger] names[j], name@),
                forall|j: int| high <= j < names.len() ==> name_lt(name@, #[trigger] names[j]),
            decreases high - low,
        {
            let middle = low + (high - low) / 2;
            match order_names(self.entries[middle].name.as_str(), name) {
                NameOrder::Same => {
                    assert forall|j: int| 0 <= j < middle implies name_lt(
                        #[trigger] names[j],
                        name@,
                    ) by {
                        assert(name_lt(names[j], names[middle as int]));
                    }
                    assert forall|j: int| middle + 1 <= j < names.len() implies name_lt(
                        name@,
                        #[trigger] names[j],
                    ) by {
                        assert(name_lt(names[middle as int], names[j]));
                    }
                    return (middle, true);
                },
                NameOrder::Before => {
                    assert forall|j: int| 0 <= j < middle + 1 implies name_lt(
                        #[trigger] names[j],
                        name@,
                    ) by {
                        if j < middle {
                            assert(name_lt(names[j], names[middle as int]));
                            lemma_name_lt_transitive(names[j], names[middle as int], name@);
                        }
                    }
                    low = middle + 1;
                },
                NameOrder::After => {
                    assert forall|j: int| middle <= j < names.len() implies name_lt(
                        name@,
                        #[trigger] names[j],
                    ) by {
                        if middle < j {
                            assert(name_lt(names[middle as int], names[j]));
                            lemma_name_lt_transitive(name@, names[middle as int], names[j]);
                        }
                    }
                    high = middle;
                },
            }
        }
        (low, false)
    }

    /// Whether a tag of this name exists.
    pub fn contains(&self, name: &str) -> (exists: bool)
        ensures
            exists == self@.dom().contains(name@),
    {
        proof {
            use_type_invariant(self);
        }
        let (at, found) = self.position(name);
        proof {
            if found {
                lemma_table_at(self.entries@, at as int);
            } else {
                lemma_table_without(self.entries@, name@, at as int);
            }
        }
        found
    }

    /// What the tag `name` points to; `Absent` for a name that is no tag.
    pub fn lookup(&self, name: &str) -> (target: RefTarget)
        ensures
            target@ == self.target_of(name@),
    {
        proof {
            use_type_invariant(self);
        }
        let (at, found) = self.position(name);
        if found {
            proof {
                lemma_table_at(self.entries@, at as int);
            }
            self.entries[at].target.clone()
        } else {
            proof {
                lemma_table_without(self.entries@, name@, at as int);
            }
            RefTarget::Absent
        }
    }

    /// Makes the tag `name` point to `target`. A target that is absent
    /// removes the tag.
    pub fn set(&mut self, name: &str, target: RefTarget)
        requires
            name@.len() > 0,
        ensures
            final(self)@ == if target@ is Absent {
                old(self)@.remove(name@)
            } else {
                old(self)@.insert(name@, target@)
            },
    {
        proof {
            use_type_invariant(&*self);
        }
        let (at, found) = self.position(name);
        let ghost before = self.entries@;
        // The entries change outside the registry and are put back whole, so
        // that the registry is well formed at every step.
        let mut entries: Vec<TagEntry> = Vec::new();
        core::mem::swap(&mut self.entries, &mut entries);
        if target.is_absent() {
            if found {
                proof {
                    lemma_remove_entry(before, at as int);
                }
                entries.remove(at);
            } else {
                proof {
                    lemma_table_without(before, name@, at as int);
                    assert(table_of(before) =~= table_of(before).remove(name@));
                }
            }
        } else {
            let entry = TagEntry { name: String::from_str(name), target };
            if found {
                proof {
                    lemma_replace_entry(before, at as int, entry);
                }
                entries.set(at, entry);
            } else {
                proof {
                    lemma_insert_entry(before, at as int, entry);
                }
                entries.insert(at, entry);
            }
        }
        self.entries = entries;
    }

    /// The names of all tags, in listing order.
    pub fn names(&self) -> (names: Vec<String>)
        ensures
            names.deep_view() == self.listing(),
            strictly_sorted(names.deep_view()),
            names.deep_view().to_set() == self@.dom(),
    {
        proof {
            use_type_invariant(self);
            self.lemma_listing();
        }
        let mut names: Vec<String> = Vec::new();
        let mut i: usize = 0;
        while i < self.entries.len()
            invariant
                i <= self.entries.len(),
                names.len() == i,
                forall|j: int| 0 <= j < i ==> names[j]@ == self.entries[j].name@,
            decreases self.entries.len() - i,
        {
            names.push(self.entries[i].name.clone());
            i += 1;
        }
        assert(names.deep_view() =~= self.listing());
        names
    }

    /// The names that `patterns` selects, in listing order: all names where
    /// there is no pattern, else those that at least one pattern matches.
    pub fn list(&self, patterns: &Vec<StringPattern>) -> (names: Vec<String>)
        ensures
            names.deep_view() == self.listing().filter(selected_by(pattern_views(patterns@))),
            strictly_sorted(names.deep_view()),
    {
        proof {
            use_type_invariant(self);
        }
        let ghost listing = self.listing();
        let ghost chosen = selected_by(pattern_views(patterns@));
        let mut names: Vec<String> = Vec::new();
        let mut i: usize = 0;
        assert(listing.take(0).filter(chosen) =~= Seq::<Seq<char>>::empty()) by {
            reveal(Seq::filter);
        }
        while i < self.entries.len()
            invariant
                i <= self.entries.len(),
                listing == names_of(self.entries@),
                chosen == selected_by(pattern_views(patterns@)),
                names.deep_view() == listing.take(i as int).filter(chosen),
            decreases self.entries.len() - i,
        {
            let ghost earlier = names.deep_view();
            assert(listing.take(i + 1).drop_last() =~= listing.take(i as int));
            assert(listing.take(i + 1).filter(chosen) == if chosen(listing[i as int]) {
                earlier.push(listing[i as int])
            } else {
                earlier
            }) by {
                reveal(Seq::filter);
            }
            if matches_any(patterns, self.entries[i].name.as_str()) {
                names.push(self.entries[i].name.clone());
                assert(names.deep_view() =~= earlier.push(listing[i as int]));
            }
            i += 1;
        }
        assert(listing.take(i as int) =~= listing);
        proof {
            lemma_filter_keeps_order(listing, chosen);
        }
        names
    }
}

impl Clone for TagRegistry {
    fn clone(&self) -> (copy: Self)
        ensures
            copy@ == self@,
            copy.listing() == self.listing(),
    {
        proof {
            use_type_invariant(self);
        }
        let mut entries: Vec<TagEntry> = Vec::new();
        let mut i: usize = 0;
        while i < self.entries.len()
            invariant
                i <= self.entries.len(),
                entries.len() == i,
                forall|j: int|
                    0 <= j < i ==> (#[trigger] entries[j]).name@ == self.entries[j].name@
                        && entries[j].target@ == self.entries[j].target@,
            decreases self.entries.len() - i,
        {
            let entry = TagEntry {
                name: self.entries[i].name.clone(),
                target: self.entries[i].target.clone(),
            };
            entries.push(entry);
            i += 1;
        }
        proof {
            lemma_same_entries(self.entries@, entries@);
        }
        TagRegistry { entries }
    }
}

/// Entries with the same names and targets stand for the same table.
proof fn lemma_same_entries(a: Seq<TagEntry>, b: Seq<TagEntry>)
    requires
        entries_ok(a),
        a.len() == b.len(),
        forall|j: int|
            0 <= j < a.len() ==> (#[trigger] b[j]).name@ == a[j].name@ && b[j].target@
                == a[j].target@,
    ensures
        entries_ok(b),
        names_of(b) == names_of(a),
        table_of(b) == table_of(a),
{
    assert(names_of(b) =~= names_of(a));
    assert(entries_ok(b));
    assert forall|name: Seq<char>| table_of(a).dom().contains(name) == table_of(
        b,
    ).dom().contains(name) by {
        if names_entry(a, name) {
            let i = index_of_name(a, name);
            assert(b[i].name@ == name);
        }
        if names_entry(b, name) {
            let i = index_of_name(b, name);
            assert(a[i].name@ == name);
        }
    }
    assert forall|name: Seq<char>| table_of(a).dom().contains(name) implies table_of(a)[name]
        == table_of(b)[name] by {
        let i = index_of_name(a, name);
        lemma_table_at(a, i);
        assert(b[i].name@ == name);
        lemma_table_at(b, i);
    }
    assert(table_of(a) =~= table_of(b));
}

} // verus!
