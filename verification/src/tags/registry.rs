//! The registry: the catalog's entries, each under its name, in the order
//! of the names.

use crate::tags::handler::{Flag, FlagView};
use crate::text::{
    compare_names, first_equal, lemma_name_lt_asymmetric, lemma_name_lt_total,
    lemma_name_lt_transitive, lowercase_of, name_lt, name_views, same_name, to_lowercase,
    NameOrder,
};
use vstd::prelude::*;

verus! {

/// One entry of a registry as a mathematical value.
pub struct EntryView {
    pub name: Seq<char>,
    pub flag: FlagView,
}

/// The names of the entries, in the entries' order.
pub open spec fn names_of(reg: Seq<EntryView>) -> Seq<Seq<char>> {
    reg.map_values(|e: EntryView| e.name)
}

/// Every entry's name comes before the names of the entries after it. No
/// name occurs twice in such a sequence.
pub open spec fn ascending(reg: Seq<EntryView>) -> bool {
    forall|i: int, j: int|
        #![trigger reg[i], reg[j]]
        0 <= i < j < reg.len() ==> name_lt(reg[i].name, reg[j].name)
}

/// Where the entry named `name` stands.
pub open spec fn position(reg: Seq<EntryView>, name: Seq<char>) -> Option<int> {
    names_of(reg).index_of_first(name)
}

/// The entry named `name`.
pub open spec fn lookup(reg: Seq<EntryView>, name: Seq<char>) -> Option<FlagView> {
    match position(reg, name) {
        Some(i) => Some(reg[i].flag),
        None => None,
    }
}

/// The names of the entries in lowercase, in the entries' order.
pub open spec fn lowercase_names(reg: Seq<EntryView>) -> Seq<Seq<char>> {
    reg.map_values(|e: EntryView| lowercase_of(e.name))
}

/// Where the first entry stands whose name is `name` but for the case of
/// its letters.
pub open spec fn folded_position(reg: Seq<EntryView>, name: Seq<char>) -> Option<int> {
    lowercase_names(reg).index_of_first(lowercase_of(name))
}

/// `folded_position` finds the first index whose name in lowercase is that
/// of `name`, or none.
pub proof fn lemma_folded_position(reg: Seq<EntryView>, name: Seq<char>)
    ensures
        match folded_position(reg, name) {
            Some(i) => 0 <= i < reg.len() && lowercase_of(reg[i].name) == lowercase_of(name)
                && forall|j: int| 0 <= j < i ==> lowercase_of(reg[j].name) != lowercase_of(name),
            None => forall|j: int|
                0 <= j < reg.len() ==> lowercase_of(reg[j].name) != lowercase_of(name),
        },
{
    let names = lowercase_names(reg);
    let folded = lowercase_of(name);
    names.index_of_first_ensures(folded);
    match folded_position(reg, name) {
        Some(i) => {
            assert(names[i] == lowercase_of(reg[i].name));
            assert forall|j: int| 0 <= j < i implies lowercase_of(reg[j].name) != folded by {
                assert(names[j] == lowercase_of(reg[j].name));
            }
        },
        None => {
            assert forall|j: int| 0 <= j < reg.len() implies lowercase_of(reg[j].name)
                != folded by {
                assert(names[j] == lowercase_of(reg[j].name));
                assert(names.contains(names[j]));
            }
        },
    }
}

/// How many entries of an ascending sequence come before `name`: one past
/// the last entry whose name does.
pub open spec fn rank(reg: Seq<EntryView>, name: Seq<char>) -> int
    decreases reg.len(),
{
    if reg.len() == 0 {
        0
    } else if name_lt(reg.last().name, name) {
        reg.len() as int
    } else {
        rank(reg.drop_last(), name)
    }
}

/// The registry with `flag` entered under `name`: in place of the entry of
/// that name if there is one, else at the place that keeps the names in order.
pub open spec fn with_entry(reg: Seq<EntryView>, name: Seq<char>, flag: FlagView) -> Seq<
    EntryView,
> {
    let entry = EntryView { name, flag };
    match position(reg, name) {
        Some(i) => reg.update(i, entry),
        None => reg.insert(rank(reg, name), entry),
    }
}

/// The registry that holds the given pairs, entered one after the other: of
/// two pairs with one name the later stays.
pub open spec fn collected(pairs: Seq<(Seq<char>, FlagView)>) -> Seq<EntryView>
    decreases pairs.len(),
{
    if pairs.len() == 0 {
        Seq::empty()
    } else {
        with_entry(collected(pairs.drop_last()), pairs.last().0, pairs.last().1)
    }
}

/// `position` finds the one index that holds `name`, or none.
pub proof fn lemma_position(reg: Seq<EntryView>, name: Seq<char>)
    ensures
        match position(reg, name) {
            Some(i) => 0 <= i < reg.len() && reg[i].name == name && forall|j: int|
                0 <= j < i ==> reg[j].name != name,
            None => forall|j: int| 0 <= j < reg.len() ==> reg[j].name != name,
        },
{
    let names = names_of(reg);
    names.index_of_first_ensures(name);
    match position(reg, name) {
        Some(i) => {
            assert(names[i] == reg[i].name);
            assert forall|j: int| 0 <= j < i implies reg[j].name != name by {
                assert(names[j] == reg[j].name);
            }
        },
        None => {
            assert forall|j: int| 0 <= j < reg.len() implies reg[j].name != name by {
                assert(names[j] == reg[j].name);
                assert(names.contains(names[j]));
            }
        },
    }
}

/// In an ascending registry an index that holds `name` is its position.
pub proof fn lemma_position_unique(reg: Seq<EntryView>, name: Seq<char>, i: int)
    requires
        ascending(reg),
        0 <= i < reg.len(),
        reg[i].name == name,
    ensures
        position(reg, name) == Some(i),
        lookup(reg, name) == Some(reg[i].flag),
{
    lemma_position(reg, name);
    match position(reg, name) {
        Some(k) => {
            if k < i {
                lemma_name_lt_asymmetric(reg[k].name, reg[i].name);
            } else if i < k {
                lemma_name_lt_asymmetric(reg[i].name, reg[k].name);
            }
        },
        None => {},
    }
}

/// In an ascending registry the entries before the rank of `name` have
/// names before `name`, and those from the rank on do not.
pub proof fn lemma_rank(reg: Seq<EntryView>, name: Seq<char>)
    requires
        ascending(reg),
    ensures
        0 <= rank(reg, name) <= reg.len(),
        forall|j: int| 0 <= j < rank(reg, name) ==> name_lt(#[trigger] reg[j].name, name),
        forall|j: int|
            rank(reg, name) <= j < reg.len() ==> !name_lt(#[trigger] reg[j].name, name),
    decreases reg.len(),
{
    if reg.len() == 0 {
    } else if name_lt(reg.last().name, name) {
        assert forall|j: int| 0 <= j < reg.len() implies name_lt(#[trigger] reg[j].name, name) by {
            if j < reg.len() - 1 {
                lemma_name_lt_transitive(reg[j].name, reg.last().name, name);
            }
        }
    } else {
        let front = reg.drop_last();
        assert(ascending(front)) by {
            assert forall|i: int, j: int| 0 <= i < j < front.len() implies name_lt(
                front[i].name,
                front[j].name,
            ) by {
                assert(front[i] == reg[i] && front[j] == reg[j]);
            }
        }
        lemma_rank(front, name);
        assert forall|j: int| 0 <= j < rank(reg, name) implies name_lt(
            #[trigger] reg[j].name,
            name,
        ) by {
            assert(front[j] == reg[j]);
        }
        assert forall|j: int| rank(reg, name) <= j < reg.len() implies !name_lt(
            #[trigger] reg[j].name,
            name,
        ) by {
            if j < reg.len() - 1 {
                assert(front[j] == reg[j]);
            }
        }
    }
}

/// Entering an entry keeps the registry ascending.
pub proof fn lemma_with_entry_ascending(reg: Seq<EntryView>, name: Seq<char>, flag: FlagView)
    requires
        ascending(reg),
    ensures
        ascending(with_entry(reg, name, flag)),
{
    let after = with_entry(reg, name, flag);
    lemma_position(reg, name);
    match position(reg, name) {
        Some(p) => {
            assert forall|i: int, j: int| 0 <= i < j < after.len() implies name_lt(
                after[i].name,
                after[j].name,
            ) by {
                assert(after[i].name == reg[i].name);
                assert(after[j].name == reg[j].name);
            }
        },
        None => {
            let p = rank(reg, name);
            lemma_rank(reg, name);
            assert forall|i: int, j: int| 0 <= i < j < after.len() implies name_lt(
                after[i].name,
                after[j].name,
            ) by {
                if j < p {
                    assert(after[i] == reg[i] && after[j] == reg[j]);
                } else if j == p {
                    assert(after[i] == reg[i]);
                } else if i < p {
                    assert(after[i] == reg[i] && after[j] == reg[j - 1]);
                } else if i == p {
                    assert(after[j] == reg[j - 1]);
                    lemma_name_lt_total(reg[j - 1].name, name);
                } else {
                    assert(after[i] == reg[i - 1] && after[j] == reg[j - 1]);
                }
            }
        },
    }
}

/// A registry holds under a name what was entered last under it: entering
/// an entry changes what the registry holds under that name, and under no
/// other.
pub proof fn lemma_lookup_with_entry(
    reg: Seq<EntryView>,
    name: Seq<char>,
    flag: FlagView,
    other: Seq<char>,
)
    requires
        ascending(reg),
    ensures
        lookup(with_entry(reg, name, flag), other) == if other == name {
            Some(flag)
        } else {
            lookup(reg, other)
        },
{
    let after = with_entry(reg, name, flag);
    lemma_with_entry_ascending(reg, name, flag);
    lemma_position(reg, name);
    lemma_position(reg, other);
    lemma_position(after, other);
    lemma_rank(reg, name);
    let p = match position(reg, name) {
        Some(p) => p,
        None => rank(reg, name),
    };
    assert(after[p] == EntryView { name, flag });
    if other == name {
        lemma_position_unique(after, name, p);
    } else {
        match position(reg, other) {
            Some(k) => {
                if position(reg, name) is Some || k < p {
                    assert(after[k] == reg[k]);
                    lemma_position_unique(after, other, k);
                } else {
                    assert(after[k + 1] == reg[k]);
                    lemma_position_unique(after, other, k + 1);
                }
            },
            None => {
                if position(after, other) is Some {
                    let k = position(after, other).unwrap();
                    if position(reg, name) is Some || k < p {
                        assert(after[k] == reg[k]);
                    } else {
                        assert(after[k] == reg[k - 1]);
                    }
                }
            },
        }
    }
}

/// What the last of `pairs` with the name `name` gives, if any is so named.
pub open spec fn last_given(pairs: Seq<(Seq<char>, FlagView)>, name: Seq<char>) -> Option<
    FlagView,
>
    decreases pairs.len(),
{
    if pairs.len() == 0 {
        None
    } else if pairs.last().0 == name {
        Some(pairs.last().1)
    } else {
        last_given(pairs.drop_last(), name)
    }
}

/// The registry collected from pairs is ascending, and holds under each
/// name what the last pair of that name gives.
pub proof fn lemma_collected(pairs: Seq<(Seq<char>, FlagView)>, name: Seq<char>)
    ensures
        ascending(collected(pairs)),
        lookup(collected(pairs), name) == last_given(pairs, name),
    decreases pairs.len(),
{
    if pairs.len() == 0 {
        lemma_position(collected(pairs), name);
    } else {
        let front = collected(pairs.drop_last());
        lemma_collected(pairs.drop_last(), name);
        lemma_with_entry_ascending(front, pairs.last().0, pairs.last().1);
        lemma_lookup_with_entry(front, pairs.last().0, pairs.last().1, name);
    }
}

/// A registry: tags' entries under their names. No name occurs twice, and
/// the entries stand in the natural order of their names.
#[derive(Debug)]
pub struct Registry {
    entries: Vec<Entry>,
}

#[derive(Debug)]
struct Entry {
    name: String,
    flag: Flag,
}

impl View for Entry {
    type V = EntryView;

    closed spec fn view(&self) -> EntryView {
        EntryView { name: self.name@, flag: self.flag@ }
    }
}

impl View for Registry {
    type V = Seq<EntryView>;

    /// The entries in their order.
    closed spec fn view(&self) -> Seq<EntryView> {
        self.entries@.map_values(|e: Entry| e@)
    }
}

impl Registry {
    #[verifier::type_invariant]
    spec fn in_order(&self) -> bool {
        ascending(self@)
    }

    proof fn lemma_entries(&self)
        ensures
            self@.len() == self.entries@.len(),
            forall|j: int|
                0 <= j < self.entries@.len() ==> #[trigger] self@[j] == self.entries@[j]@,
            forall|j: int|
                0 <= j < self.entries@.len() ==> self@[j].name == (#[trigger] self.entries@[j]).name@
                    && self@[j].flag == self.entries@[j].flag@,
    {
    }

    /// The registry without entries.
    pub fn new() -> (reg: Registry)
        ensures
            reg@ == Seq::<EntryView>::empty(),
    {
        let reg = Registry { entries: Vec::new() };
        assert(reg@ =~= Seq::<EntryView>::empty());
        reg
    }

    /// The number of entries.
    pub fn len(&self) -> (n: usize)
        ensures
            n == self@.len(),
            ascending(self@),
    {
        proof {
            use_type_invariant(self);
            self.lemma_entries();
        }
        self.entries.len()
    }

    /// The name and the entry at `i`, counted in the order of the names,
    /// if the registry has that many.
    pub fn entry_at(&self, i: usize) -> (entry: Option<(&String, &Flag)>)
        ensures
            match entry {
                Some((name, flag)) => i < self@.len() && name@ == self@[i as int].name && flag@
                    == self@[i as int].flag,
                None => i >= self@.len(),
            },
    {
        if i < self.len() {
            Some((self.name_at(i), self.flag_at(i)))
        } else {
            None
        }
    }

    /// The name of the entry at `i`, counted in the order of the names.
    pub(crate) fn name_at(&self, i: usize) -> (name: &String)
        requires
            i < self@.len(),
        ensures
            name@ == self@[i as int].name,
    {
        proof {
            self.lemma_entries();
        }
        &self.entries[i].name
    }

    /// The entry at `i`, counted in the order of the names.
    pub(crate) fn flag_at(&self, i: usize) -> (flag: &Flag)
        requires
            i < self@.len(),
        ensures
            flag@ == self@[i as int].flag,
    {
        proof {
            self.lemma_entries();
        }
        &self.entries[i].flag
    }

    /// Where the entry named `name` stands, if there is one.
    pub fn find(&self, name: &str) -> (at: Option<usize>)
        ensures
            ascending(self@),
            match at {
                Some(i) => i < self@.len() && position(self@, name@) == Some(i as int),
                None => position(self@, name@) is None,
            },
    {
        proof {
            use_type_invariant(self);
            self.lemma_entries();
            lemma_position(self@, name@);
        }
        let mut i: usize = 0;
        while i < self.entries.len()
            invariant
                i <= self.entries.len(),
                ascending(self@),
                self@.len() == self.entries.len(),
                forall|j: int|
                    0 <= j < self.entries@.len() ==> self@[j].name == (
                    #[trigger] self.entries@[j]).name@,
                forall|j: int| 0 <= j < i ==> self@[j].name != name@,
            decreases self.entries.len() - i,
        {
            if same_name(self.entries[i].name.as_str(), name) {
                proof {
                    lemma_position_unique(self@, name@, i as int);
                }
                return Some(i);
            }
            i += 1;
        }
        None
    }

    /// The entry named `name`, if there is one.
    pub fn get(&self, name: &str) -> (flag: Option<&Flag>)
        ensures
            ascending(self@),
            match flag {
                Some(f) => lookup(self@, name@) == Some(f@),
                None => lookup(self@, name@) is None,
            },
    {
        proof {
            self.lemma_entries();
        }
        match self.find(name) {
            Some(i) => Some(&self.entries[i].flag),
            None => None,
        }
    }

    /// The names of the entries in lowercase, in the entries' order.
    pub fn folded_names(&self) -> (folded: Vec<String>)
        ensures
            name_views(folded@) == lowercase_names(self@),
            folded.len() == self@.len(),
    {
        proof {
            self.lemma_entries();
        }
        let mut folded: Vec<String> = Vec::new();
        let mut i: usize = 0;
        while i < self.entries.len()
            invariant
                i <= self.entries.len(),
                self@.len() == self.entries.len(),
                forall|j: int|
                    0 <= j < self.entries@.len() ==> self@[j].name == (
                    #[trigger] self.entries@[j]).name@,
                folded.len() == i,
                forall|j: int| 0 <= j < i ==> (#[trigger] folded@[j])@ == lowercase_of(self@[j].name),
            decreases self.entries.len() - i,
        {
            folded.push(to_lowercase(self.entries[i].name.as_str()));
            i += 1;
        }
        assert(name_views(folded@) =~= lowercase_names(self@));
        folded
    }

    /// Where the first entry stands whose name is `name` but for the case
    /// of its letters.
    pub fn find_folded(&self, name: &str) -> (at: Option<usize>)
        ensures
            match at {
                Some(i) => i < self@.len() && folded_position(self@, name@) == Some(i as int),
                None => folded_position(self@, name@) is None,
            },
    {
        let keys = self.folded_names();
        let wanted = to_lowercase(name);
        first_equal(&keys, wanted.as_str())
    }

    /// Where `name` stands, or where it has to go: the index of the entry of
    /// that name with `true`, or else its rank with `false`.
    fn slot(&self, name: &str) -> (at: (usize, bool))
        ensures
            ascending(self@),
            at.0 <= self@.len(),
            at.1 ==> position(self@, name@) == Some(at.0 as int) && at.0 < self@.len(),
            !at.1 ==> {
                &&& position(self@, name@) is None
                &&& at.0 == rank(self@, name@)
                &&& forall|j: int| 0 <= j < at.0 ==> name_lt(self@[j].name, name@)
                &&& forall|j: int| at.0 <= j < self@.len() ==> name_lt(name@, self@[j].name)
            },
    {
        proof {
            use_type_invariant(self);
            self.lemma_entries();
            lemma_position(self@, name@);
            assert(self@.take(self@.len() as int) =~= self@);
        }
        let mut i: usize = self.entries.len();
        while i > 0
            invariant
                i <= self.entries.len(),
                ascending(self@),
                self@.len() == self.entries.len(),
                forall|j: int|
                    0 <= j < self.entries@.len() ==> self@[j].name == (
                    #[trigger] self.entries@[j]).name@,
                forall|j: int| i <= j < self@.len() ==> name_lt(name@, self@[j].name),
                rank(self@, name@) == rank(self@.take(i as int), name@),
            decreases i,
        {
            let ghost before = self@.take(i as int);
            assert(before.last() == self@[i - 1]);
            assert(before.drop_last() =~= self@.take(i - 1));
            match compare_names(self.entries[i - 1].name.as_str(), name) {
                NameOrder::Same => {
                    proof {
                        lemma_position_unique(self@, name@, i - 1);
                    }
                    return (i - 1, true);
                },
                NameOrder::Before => {
                    proof {
                        assert(name_lt(before.last().name, name@));
                        assert(rank(before, name@) == i);
                        lemma_position(self@, name@);
                        assert forall|j: int| 0 <= j < i implies name_lt(self@[j].name, name@) by {
                            if j < i - 1 {
                                lemma_name_lt_transitive(self@[j].name, self@[i - 1].name, name@);
                            }
                        }
                        assert forall|j: int| 0 <= j < self@.len() implies self@[j].name
                            != name@ by {
                            if j < i {
                                lemma_name_lt_asymmetric(self@[j].name, name@);
                            } else {
                                lemma_name_lt_asymmetric(name@, self@[j].name);
                            }
                        }
                    }
                    return (i, false);
                },
                NameOrder::After => {
                    proof {
                        lemma_name_lt_total(self@[i - 1].name, name@);
                    }
                    i -= 1;
                },
            }
        }
        proof {
            assert forall|j: int| 0 <= j < self@.len() implies self@[j].name != name@ by {
                lemma_name_lt_asymmetric(name@, self@[j].name);
            }
        }
        (0, false)
    }

    /// Enters `flag` under `name`: in place of the entry of that name if
    /// there is one, else at the place that keeps the names in order.
    pub fn insert(&mut self, name: String, flag: Flag)
        ensures
            final(self)@ == with_entry(old(self)@, name@, flag@),
            ascending(final(self)@),
    {
        let at = self.slot(name.as_str());
        let ghost before = self@;
        let ghost entry = EntryView { name: name@, flag: flag@ };
        proof {
            self.lemma_entries();
            lemma_position(before, name@);
        }
        let mut taken = Registry::new();
        core::mem::swap(self, &mut taken);
        let mut entries = taken.entries;
        if at.1 {
            entries.set(at.0, Entry { name, flag });
            proof {
                assert(entries@.map_values(|e: Entry| e@) =~= before.update(at.0 as int, entry));
                let after = before.update(at.0 as int, entry);
                assert forall|i: int, j: int| 0 <= i < j < after.len() implies name_lt(
                    after[i].name,
                    after[j].name,
                ) by {
                    assert(after[i].name == before[i].name);
                    assert(after[j].name == before[j].name);
                }
            }
        } else {
            entries.insert(at.0, Entry { name, flag });
            proof {
                let after = before.insert(at.0 as int, entry);
                assert(entries@.map_values(|e: Entry| e@) =~= after);
                assert forall|i: int, j: int| 0 <= i < j < after.len() implies name_lt(
                    after[i].name,
                    after[j].name,
                ) by {
                    let p = at.0 as int;
                    if j < p {
                        assert(after[i] == before[i] && after[j] == before[j]);
                    } else if j == p {
                        assert(after[i] == before[i]);
                    } else if i < p {
                        assert(after[i] == before[i] && after[j] == before[j - 1]);
                    } else if i == p {
                        assert(after[j] == before[j - 1]);
                    } else {
                        assert(after[i] == before[i - 1] && after[j] == before[j - 1]);
                    }
                }
            }
        }
        *self = Registry { entries };
    }

    /// The registry that holds the given pairs, entered one after the other:
    /// of two pairs with one name the later stays.
    pub fn from_entries(pairs: Vec<(String, Flag)>) -> (reg: Registry)
        ensures
            reg@ == collected(pair_views(pairs@)),
            ascending(reg@),
    {
        let mut reg = Registry::new();
        let mut pairs = pairs;
        let ghost all = pair_views(pairs@);
        let ghost n = all.len();
        let mut rest: Vec<(String, Flag)> = Vec::new();
        // Take the pairs from the back, then enter them front to back.
        while pairs.len() > 0
            invariant
                n == all.len(),
                pairs.len() + rest.len() == n,
                forall|t: int| 0 <= t < pairs.len() ==> pair_views(pairs@)[t] == all[t],
                forall|t: int| 0 <= t < rest.len() ==> pair_views(rest@)[t] == all[n - 1 - t],
            decreases pairs.len(),
        {
            let ghost before_pairs = pair_views(pairs@);
            let ghost before_rest = pair_views(rest@);
            let pair = pairs.pop().unwrap();
            rest.push(pair);
            proof {
                assert(pair_views(pairs@) =~= before_pairs.drop_last());
                assert(pair_views(rest@) =~= before_rest.push(before_pairs.last()));
            }
        }
        proof {
            assert(all.take(0) =~= Seq::empty());
        }
        while rest.len() > 0
            invariant
                n == all.len(),
                rest.len() <= n,
                forall|t: int| 0 <= t < rest.len() ==> pair_views(rest@)[t] == all[n - 1 - t],
                reg@ == collected(all.take(n - rest.len())),
                ascending(reg@),
            decreases rest.len(),
        {
            let ghost k = n - rest.len();
            let ghost before_rest = pair_views(rest@);
            let pair = rest.pop().unwrap();
            proof {
                assert(pair_views(rest@) =~= before_rest.drop_last());
                assert(all[k] == before_rest.last());
                assert(all[k] == (pair.0@, pair.1@));
                assert(all.take(k + 1).drop_last() =~= all.take(k));
                assert(all.take(k + 1).last() == all[k]);
            }
            reg.insert(pair.0, pair.1);
        }
        proof {
            assert(all.take(n as int) =~= all);
        }
        reg
    }
}

impl Clone for Registry {
    fn clone(&self) -> (reg: Registry)
        ensures
            reg@ == self@,
    {
        proof {
            use_type_invariant(self);
            self.lemma_entries();
        }
        let mut entries: Vec<Entry> = Vec::new();
        let mut i: usize = 0;
        while i < self.entries.len()
            invariant
                i <= self.entries.len(),
                entries.len() == i,
                forall|j: int| 0 <= j < i ==> (#[trigger] entries@[j])@ == self.entries@[j]@,
            decreases self.entries.len() - i,
        {
            let entry = &self.entries[i];
            entries.push(Entry { name: entry.name.clone(), flag: entry.flag.clone() });
            i += 1;
        }
        assert(entries@.map_values(|e: Entry| e@) =~= self@);
        Registry { entries }
    }
}

impl Default for Registry {
    /// The registry without entries.
    fn default() -> (reg: Registry)
        ensures
            reg@ == Seq::<EntryView>::empty(),
    {
        Registry::new()
    }
}

/// The pairs as mathematical values.
pub open spec fn pair_views(pairs: Seq<(String, Flag)>) -> Seq<(Seq<char>, FlagView)> {
    pairs.map_values(|p: (String, Flag)| (p.0@, p.1@))
}

} // verus!