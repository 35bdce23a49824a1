//! Texts grouped by what they say: for each text the positions at which it
//! stands in a sequence.

use vstd::prelude::*;
use vstd::string::*;
use vstd::hash_map::StringHashMap;

verus! {

/// The text at position `i` stands at no earlier position.
pub open spec fn first_of(keys: Seq<Seq<char>>, i: int) -> bool {
    0 <= i < keys.len() && forall|j: int| 0 <= j < i ==> #[trigger] keys[j] != keys[i]
}

/// The positions below `k` at which `text` stands, in ascending order.
pub open spec fn positions_with(keys: Seq<Seq<char>>, text: Seq<char>, k: nat) -> Seq<int>
    decreases k,
{
    if k == 0 {
        Seq::empty()
    } else if keys[k - 1] == text {
        positions_with(keys, text, (k - 1) as nat).push(k - 1)
    } else {
        positions_with(keys, text, (k - 1) as nat)
    }
}

/// The positions below `m` at which a text stands for the first time, in
/// ascending order.
pub open spec fn heads(keys: Seq<Seq<char>>, m: nat) -> Seq<int>
    decreases m,
{
    if m == 0 {
        Seq::empty()
    } else if first_of(keys, m - 1) {
        heads(keys, (m - 1) as nat).push(m - 1)
    } else {
        heads(keys, (m - 1) as nat)
    }
}

/// The groups of `keys`: for each text the positions at which it stands, in
/// ascending order; the groups in the order of their first positions.
pub open spec fn groups_of(keys: Seq<Seq<char>>) -> Seq<Seq<int>> {
    heads(keys, keys.len()).map_values(|f: int| positions_with(keys, keys[f], keys.len()))
}

/// How many members the groups have together.
pub open spec fn total_len(groups: Seq<Seq<int>>) -> nat
    decreases groups.len(),
{
    if groups.len() == 0 {
        0
    } else {
        total_len(groups.drop_last()) + groups.last().len()
    }
}

/// Positions as numbers without bound.
pub open spec fn positions(list: Seq<usize>) -> Seq<int> {
    list.map_values(|p: usize| p as int)
}

/// The views of groups of positions.
pub open spec fn group_views(groups: Seq<Vec<usize>>) -> Seq<Seq<int>> {
    groups.map_values(|g: Vec<usize>| positions(g@))
}

/// Position `i` is a member of one of `groups`.
pub open spec fn grouped(groups: Seq<Seq<int>>, i: int) -> bool {
    exists|g: int| 0 <= g < groups.len() && (#[trigger] groups[g]).contains(i)
}

/// The members of a group are the positions below `k` at which the text
/// stands, each once, in ascending order.
pub proof fn lemma_positions_with(keys: Seq<Seq<char>>, text: Seq<char>, k: nat)
    requires
        k <= keys.len(),
    ensures
        forall|a: int|
            0 <= a < positions_with(keys, text, k).len() ==> 0 <= #[trigger] positions_with(
                keys,
                text,
                k,
            )[a] < k && keys[positions_with(keys, text, k)[a]] == text,
        forall|x: int|
            0 <= x < k && #[trigger] keys[x] == text ==> positions_with(keys, text, k).contains(x),
        forall|a: int, b: int|
            0 <= a < b < positions_with(keys, text, k).len() ==> #[trigger] positions_with(
                keys,
                text,
                k,
            )[a] < #[trigger] positions_with(keys, text, k)[b],
    decreases k,
{
    if k > 0 {
        let before = positions_with(keys, text, (k - 1) as nat);
        let now = positions_with(keys, text, k);
        lemma_positions_with(keys, text, (k - 1) as nat);
        assert forall|x: int| 0 <= x < k && #[trigger] keys[x] == text implies now.contains(x) by {
            if x < k - 1 {
                assert(before.contains(x));
                let a = choose|a: int| 0 <= a < before.len() && before[a] == x;
                assert(now[a] == x);
            } else {
                assert(now[now.len() - 1] == x);
            }
        }
    }
}

/// The heads are the first positions of the texts, each once, in ascending
/// order.
pub proof fn lemma_heads(keys: Seq<Seq<char>>, m: nat)
    requires
        m <= keys.len(),
    ensures
        forall|g: int|
            0 <= g < heads(keys, m).len() ==> 0 <= #[trigger] heads(keys, m)[g] < m && first_of(
                keys,
                heads(keys, m)[g],
            ),
        forall|f: int| 0 <= f < m && #[trigger] first_of(keys, f) ==> heads(keys, m).contains(f),
        forall|a: int, b: int|
            0 <= a < b < heads(keys, m).len() ==> #[trigger] heads(keys, m)[a] < #[trigger] heads(
                keys,
                m,
            )[b],
    decreases m,
{
    if m > 0 {
        let before = heads(keys, (m - 1) as nat);
        let now = heads(keys, m);
        lemma_heads(keys, (m - 1) as nat);
        assert forall|f: int| 0 <= f < m && #[trigger] first_of(keys, f) implies now.contains(
            f,
        ) by {
            if f < m - 1 {
                assert(before.contains(f));
                let a = choose|a: int| 0 <= a < before.len() && before[a] == f;
                assert(now[a] == f);
            } else {
                assert(now[now.len() - 1] == f);
            }
        }
    }
}

/// The first position of the text at position `j`.
pub proof fn lemma_head_of(keys: Seq<Seq<char>>, j: int) -> (f: int)
    requires
        0 <= j < keys.len(),
    ensures
        0 <= f <= j,
        first_of(keys, f),
        keys[f] == keys[j],
    decreases j,
{
    if first_of(keys, j) {
        j
    } else {
        let i = choose|i: int| 0 <= i < j && #[trigger] keys[i] == keys[j];
        lemma_head_of(keys, i)
    }
}

/// Every position is in a group, no position is in two, and no group is
/// empty.
pub proof fn law_groups_part_the_positions(keys: Seq<Seq<char>>)
    ensures
        forall|i: int| 0 <= i < keys.len() ==> #[trigger] grouped(groups_of(keys), i),
        forall|g: int, h: int, x: int|
            #![trigger groups_of(keys)[g].contains(x), groups_of(keys)[h].contains(x)]
            0 <= g < h < groups_of(keys).len() && groups_of(keys)[g].contains(x) ==> !groups_of(
                keys,
            )[h].contains(x),
        forall|g: int, a: int|
            0 <= g < groups_of(keys).len() && 0 <= a < groups_of(keys)[g].len() ==> 0
                <= #[trigger] groups_of(keys)[g][a] < keys.len(),
        forall|g: int| 0 <= g < groups_of(keys).len() ==> (#[trigger] groups_of(keys)[g]).len() > 0,
{
    let n = keys.len();
    let hs = heads(keys, n);
    let groups = groups_of(keys);
    lemma_heads(keys, n);
    assert forall|i: int| 0 <= i < n implies #[trigger] grouped(groups, i) by {
        let f = lemma_head_of(keys, i);
        assert(hs.contains(f));
        let g = choose|g: int| 0 <= g < hs.len() && hs[g] == f;
        lemma_positions_with(keys, keys[f], n);
        assert(keys[i] == keys[f]);
        assert(groups[g].contains(i));
    }
    assert forall|g: int, h: int, x: int|
        #![trigger groups[g].contains(x), groups[h].contains(x)]
        0 <= g < h < groups.len() && groups[g].contains(x) implies !groups[h].contains(x) by {
        lemma_positions_with(keys, keys[hs[g]], n);
        lemma_positions_with(keys, keys[hs[h]], n);
        if groups[h].contains(x) {
            let a = choose|a: int| 0 <= a < groups[g].len() && groups[g][a] == x;
            let b = choose|b: int| 0 <= b < groups[h].len() && groups[h][b] == x;
            assert(keys[x] == keys[hs[g]]);
            assert(keys[x] == keys[hs[h]]);
            assert(hs[g] < hs[h]);
            assert(keys[hs[g]] != keys[hs[h]]);
        }
    }
    assert forall|g: int, a: int| 0 <= g < groups.len() && 0 <= a < groups[g].len() implies 0
        <= #[trigger] groups[g][a] < n by {
        lemma_positions_with(keys, keys[hs[g]], n);
    }
    assert forall|g: int| 0 <= g < groups.len() implies (#[trigger] groups[g]).len() > 0 by {
        lemma_positions_with(keys, keys[hs[g]], n);
        assert(keys[hs[g]] == keys[hs[g]]);
        assert(groups[g].contains(hs[g]));
    }
}

/// `text` stands for the first time at one of the first `m` positions.
pub open spec fn has_head(keys: Seq<Seq<char>>, m: nat, text: Seq<char>) -> bool {
    exists|f: int| 0 <= f < m && #[trigger] first_of(keys, f) && keys[f] == text
}

/// How many of the first `k` positions are in the groups of the heads below
/// `m`.
pub open spec fn pool_size(keys: Seq<Seq<char>>, m: nat, k: nat) -> nat
    decreases m,
{
    if m == 0 {
        0
    } else if first_of(keys, m - 1) {
        pool_size(keys, (m - 1) as nat, k) + positions_with(keys, keys[m - 1], k).len()
    } else {
        pool_size(keys, (m - 1) as nat, k)
    }
}

/// One position more adds one member to the groups if its text has a head
/// among them, and none if not.
proof fn lemma_pool_step(keys: Seq<Seq<char>>, m: nat, k: nat)
    requires
        m <= keys.len(),
        k < keys.len(),
    ensures
        pool_size(keys, m, k + 1) == pool_size(keys, m, k) + if has_head(keys, m, keys[k as int]) {
            1nat
        } else {
            0nat
        },
    decreases m,
{
    if m > 0 {
        let f = m - 1;
        let text = keys[k as int];
        lemma_pool_step(keys, (m - 1) as nat, k);
        if first_of(keys, f) && keys[f] == text {
            assert(has_head(keys, m, text));
            if has_head(keys, (m - 1) as nat, text) {
                let g = choose|g: int| 0 <= g < m - 1 && #[trigger] first_of(keys, g) && keys[g] == text;
                assert(keys[g] != keys[f]);
            }
        } else {
            if has_head(keys, m, text) {
                let g = choose|g: int| 0 <= g < m && #[trigger] first_of(keys, g) && keys[g] == text;
                assert(g < m - 1);
                assert(has_head(keys, (m - 1) as nat, text));
            }
            if has_head(keys, (m - 1) as nat, text) {
                let g = choose|g: int| 0 <= g < m - 1 && #[trigger] first_of(keys, g) && keys[g] == text;
                assert(0 <= g < m && first_of(keys, g));
            }
        }
    }
}

/// The groups of the first `k` positions have `k` members together.
proof fn lemma_pool_counts(keys: Seq<Seq<char>>, k: nat)
    requires
        k <= keys.len(),
    ensures
        pool_size(keys, k, k) == k,
    decreases k,
{
    if k > 0 {
        let last = k - 1;
        let text = keys[last];
        lemma_pool_counts(keys, (k - 1) as nat);
        lemma_pool_step(keys, (k - 1) as nat, (k - 1) as nat);
        if first_of(keys, last) {
            lemma_positions_with(keys, text, (k - 1) as nat);
            let before = positions_with(keys, text, (k - 1) as nat);
            if before.len() > 0 {
                assert(keys[before[0]] == text);
            }
            if has_head(keys, (k - 1) as nat, text) {
                let g = choose|g: int| 0 <= g < k - 1 && #[trigger] first_of(keys, g) && keys[g] == text;
                assert(keys[g] != keys[last]);
            }
        } else {
            let i = choose|i: int| 0 <= i < last && #[trigger] keys[i] == keys[last];
            let f = lemma_head_of(keys, i);
            assert(0 <= f < k - 1 && first_of(keys, f));
            assert(has_head(keys, (k - 1) as nat, text));
        }
    }
}

/// The groups of the heads below `m` have as many members as `pool_size`
/// counts.
proof fn lemma_total_is_pool_size(keys: Seq<Seq<char>>, m: nat)
    requires
        m <= keys.len(),
    ensures
        total_len(heads(keys, m).map_values(|f: int| positions_with(keys, keys[f], keys.len())))
            == pool_size(keys, m, keys.len()),
    decreases m,
{
    let group = |f: int| positions_with(keys, keys[f], keys.len());
    if m > 0 {
        lemma_total_is_pool_size(keys, (m - 1) as nat);
        if first_of(keys, m - 1) {
            let before = heads(keys, (m - 1) as nat);
            let now = heads(keys, m);
            assert(now.map_values(group).drop_last() =~= before.map_values(group));
            assert(now.map_values(group).last() == group(m - 1));
        }
    }
}

/// The members of all groups are as many as the positions.
pub proof fn law_groups_count_the_positions(keys: Seq<Seq<char>>)
    ensures
        total_len(groups_of(keys)) == keys.len(),
{
    lemma_total_is_pool_size(keys, keys.len());
    lemma_pool_counts(keys, keys.len());
}

/// What stands below `k` does not change when a text is added at the end.
pub proof fn lemma_added_text_keeps_the_past(keys: Seq<Seq<char>>, added: Seq<char>, k: nat)
    requires
        k <= keys.len(),
    ensures
        heads(keys.push(added), k) == heads(keys, k),
        forall|text: Seq<char>| #[trigger]
            positions_with(keys.push(added), text, k) == positions_with(keys, text, k),
    decreases k,
{
    let more = keys.push(added);
    if k > 0 {
        lemma_added_text_keeps_the_past(keys, added, (k - 1) as nat);
        assert(more[k - 1] == keys[k - 1]);
        assert(first_of(more, k - 1) == first_of(keys, k - 1)) by {
            if first_of(keys, k - 1) {
                assert forall|j: int| 0 <= j < k - 1 implies #[trigger] more[j] != more[k - 1] by {
                    assert(keys[j] != keys[k - 1]);
                }
            }
            if first_of(more, k - 1) {
                assert forall|j: int| 0 <= j < k - 1 implies #[trigger] keys[j] != keys[k - 1] by {
                    assert(more[j] != more[k - 1]);
                }
            }
        }
        assert forall|text: Seq<char>| #[trigger]
            positions_with(more, text, k) == positions_with(keys, text, k) by {
            assert(positions_with(more, text, (k - 1) as nat) == positions_with(
                keys,
                text,
                (k - 1) as nat,
            ));
        }
    }
}

/// Texts as they come, each filed under what it says.
pub struct TextGroups {
    slots: StringHashMap<usize>,
    lists: Vec<Vec<usize>>,
    count: usize,
    keys: Ghost<Seq<Seq<char>>>,
}

impl TextGroups {
    /// The texts that were added, in the order in which they came.
    pub closed spec fn keys(&self) -> Seq<Seq<char>> {
        self.keys@
    }

    /// The groups hold what was added: one list for each text, in the order
    /// in which the texts came first, each under its text.
    pub closed spec fn well_formed(&self) -> bool {
        let keys = self.keys@;
        let hs = heads(keys, keys.len());
        &&& self.count == keys.len()
        &&& self.lists.len() == hs.len()
        &&& forall|g: int|
            0 <= g < self.lists.len() ==> {
                &&& positions((#[trigger] self.lists[g])@) == positions_with(
                    keys,
                    keys[hs[g]],
                    keys.len(),
                )
                &&& self.slots@.contains_key(keys[hs[g]])
                &&& self.slots@[keys[hs[g]]] == g
            }
        &&& forall|text: Seq<char>| #[trigger]
            self.slots@.contains_key(text) ==> self.slots@[text] < self.lists.len()
                && keys[hs[self.slots@[text] as int]] == text
    }

    /// No texts.
    pub fn new() -> (r: TextGroups)
        ensures
            r.well_formed(),
            r.keys() == Seq::<Seq<char>>::empty(),
    {
        TextGroups {
            slots: StringHashMap::new(),
            lists: Vec::new(),
            count: 0,
            keys: Ghost(Seq::empty()),
        }
    }

    /// Adds a text; its position is the number of texts that came before.
    pub fn add(&mut self, text: &str)
        requires
            old(self).well_formed(),
            old(self).keys().len() < usize::MAX,
        ensures
            final(self).well_formed(),
            final(self).keys() == old(self).keys().push(text@),
    {
        let ghost keys = self.keys@;
        let ghost more = keys.push(text@);
        let ghost n = keys.len();
        let ghost hs = heads(keys, n);
        proof {
            lemma_heads(keys, n);
            lemma_added_text_keeps_the_past(keys, text@, n);
        }
        let position = self.count;
        let found = match self.slots.get(text) {
            Some(g) => Some(*g),
            None => None,
        };
        match found {
            Some(g) => {
                proof {
                    let f = hs[g as int];
                    assert(more[f] == text@ && f < n);
                    assert(!first_of(more, n as int));
                    assert(heads(more, (n + 1) as nat) == hs);
                }
                let ghost before = self.lists@;
                self.lists[g].push(position);
                self.count = position + 1;
                self.keys = Ghost(more);
                proof {
                    assert forall|h: int| 0 <= h < self.lists.len() implies {
                        &&& positions((#[trigger] self.lists[h])@) == positions_with(
                            more,
                            more[hs[h]],
                            more.len(),
                        )
                        &&& self.slots@.contains_key(more[hs[h]])
                        &&& self.slots@[more[hs[h]]] == h
                    } by {
                        assert(more[hs[h]] == keys[hs[h]]);
                        assert(positions(before[h]@) == positions_with(keys, keys[hs[h]], n));
                        assert(positions_with(more, keys[hs[h]], n) == positions_with(
                            keys,
                            keys[hs[h]],
                            n,
                        ));
                        if h == g {
                            assert(positions(self.lists[h]@) =~= positions(before[h]@).push(
                                n as int,
                            ));
                        } else {
                            assert(keys[hs[h]] != text@);
                        }
                    }
                    assert forall|t: Seq<char>| #[trigger]
                        self.slots@.contains_key(t) implies self.slots@[t] < self.lists.len()
                        && more[heads(more, more.len())[self.slots@[t] as int]] == t by {
                        assert(more[hs[self.slots@[t] as int]] == keys[hs[self.slots@[t] as int]]);
                    }
                }
            },
            None => {
                proof {
                    assert forall|j: int| 0 <= j < n implies #[trigger] more[j] != text@ by {
                        if keys[j] == text@ {
                            let f = lemma_head_of(keys, j);
                            assert(hs.contains(f));
                            let g = choose|g: int| 0 <= g < hs.len() && hs[g] == f;
                            assert(positions(self.lists[g]@) == positions_with(
                                keys,
                                keys[hs[g]],
                                n,
                            ));
                            assert(self.slots@.contains_key(keys[hs[g]]));
                        }
                    }
                    assert(more[n as int] == text@);
                    assert(first_of(more, n as int));
                    assert(heads(more, (n + 1) as nat) == hs.push(n as int));
                    lemma_positions_with(keys, text@, n);
                    let earlier = positions_with(keys, text@, n);
                    if earlier.len() > 0 {
                        assert(keys[earlier[0]] == text@);
                        assert(more[earlier[0]] == text@);
                    }
                }
                let ghost before = self.lists@;
                let ghost slots_before = self.slots@;
                let slot = self.lists.len();
                self.slots.insert(String::from_str(text), slot);
                let mut list: Vec<usize> = Vec::new();
                list.push(position);
                self.lists.push(list);
                self.count = position + 1;
                self.keys = Ghost(more);
                proof {
                    let now = heads(more, more.len());
                    assert forall|h: int| 0 <= h < self.lists.len() implies {
                        &&& positions((#[trigger] self.lists[h])@) == positions_with(
                            more,
                            more[now[h]],
                            more.len(),
                        )
                        &&& self.slots@.contains_key(more[now[h]])
                        &&& self.slots@[more[now[h]]] == h
                    } by {
                        if h < slot {
                            assert(now[h] == hs[h]);
                            assert(more[hs[h]] == keys[hs[h]]);
                            assert(positions(before[h]@) == positions_with(keys, keys[hs[h]], n));
                            assert(positions_with(more, keys[hs[h]], n) == positions_with(
                                keys,
                                keys[hs[h]],
                                n,
                            ));
                            assert(slots_before.contains_key(keys[hs[h]]));
                            assert(keys[hs[h]] != text@);
                        } else {
                            assert(now[h] == n);
                            assert(positions_with(more, text@, n) == positions_with(
                                keys,
                                text@,
                                n,
                            ));
                            assert(self.lists[h]@ =~= seq![position]);
                            assert(positions_with(more, text@, (n + 1) as nat) =~= seq![n as int]);
                            assert(positions(self.lists[h]@) =~= seq![n as int]);
                        }
                    }
                    assert forall|t: Seq<char>| #[trigger]
                        self.slots@.contains_key(t) implies self.slots@[t] < self.lists.len()
                        && more[now[self.slots@[t] as int]] == t by {
                        if t != text@ {
                            assert(slots_before.contains_key(t));
                            assert(now[slots_before[t] as int] == hs[slots_before[t] as int]);
                            let h = slots_before[t] as int;
                            assert(more[hs[h]] == keys[hs[h]]);
                        }
                    }
                }
            },
        }
    }

    /// How many texts were added.
    pub fn count(&self) -> (r: usize)
        requires
            self.well_formed(),
        ensures
            r == self.keys().len(),
    {
        self.count
    }

    /// The positions at which `text` stands, in ascending order; `None`
    /// where it stands nowhere.
    pub fn group(&self, text: &str) -> (r: Option<&Vec<usize>>)
        requires
            self.well_formed(),
        ensures
            match r {
                Some(list) => list.len() > 0 && positions(list@) == positions_with(
                    self.keys(),
                    text@,
                    self.keys().len(),
                ),
                None => forall|j: int| 0 <= j < self.keys().len() ==> self.keys()[j] != text@,
            },
    {
        let ghost keys = self.keys@;
        let ghost hs = heads(keys, keys.len());
        proof {
            lemma_heads(keys, keys.len());
        }
        match self.slots.get(text) {
            Some(g) => {
                proof {
                    let f = hs[*g as int];
                    lemma_positions_with(keys, text@, keys.len());
                    assert(keys[f] == text@);
                    assert(positions_with(keys, text@, keys.len()).contains(f));
                }
                Some(&self.lists[*g])
            },
            None => {
                assert forall|j: int| 0 <= j < keys.len() implies keys[j] != text@ by {
                    if keys[j] == text@ {
                        let f = lemma_head_of(keys, j);
                        assert(hs.contains(f));
                        let g = choose|g: int| 0 <= g < hs.len() && hs[g] == f;
                        assert(positions(self.lists[g]@) == positions_with(
                            keys,
                            keys[hs[g]],
                            keys.len(),
                        ));
                        assert(self.slots@.contains_key(keys[hs[g]]));
                    }
                }
                None
            },
        }
    }

    /// All groups, in the order in which their texts came first.
    pub fn lists(&self) -> (r: &Vec<Vec<usize>>)
        requires
            self.well_formed(),
        ensures
            group_views(r@) == groups_of(self.keys()),
    {
        assert(group_views(self.lists@) =~= groups_of(self.keys@));
        &self.lists
    }

    /// All groups, in the order in which their texts came first.
    pub fn into_lists(self) -> (r: Vec<Vec<usize>>)
        requires
            self.well_formed(),
        ensures
            group_views(r@) == groups_of(self.keys()),
    {
        assert(group_views(self.lists@) =~= groups_of(self.keys@));
        self.lists
    }
}

} // verus!
