//! Catalogue of tokenization components: an in-memory table indexed by main
//! type and by (main type, sub type), and the response envelopes built from
//! its queries.
use crate::model::strings_view;
use vstd::prelude::*;

verus! {

/// A stored component; `id` counts from 1 in order of insertion.
#[derive(Debug, Clone)]
pub struct TokenizationComponent {
    pub id: u32,
    pub main_type: String,
    pub sub_type: String,
    pub components: String,
}

pub struct ComponentView {
    pub id: u32,
    pub main_type: Seq<char>,
    pub sub_type: Seq<char>,
    pub components: Seq<char>,
}

impl View for TokenizationComponent {
    type V = ComponentView;

    open spec fn view(&self) -> ComponentView {
        ComponentView {
            id: self.id,
            main_type: self.main_type@,
            sub_type: self.sub_type@,
            components: self.components@,
        }
    }
}

impl TokenizationComponent {
    /// A detached copy of the record.
    pub fn duplicate(&self) -> (r: TokenizationComponent)
        ensures
            r@ == self@,
    {
        TokenizationComponent {
            id: self.id,
            main_type: self.main_type.clone(),
            sub_type: self.sub_type.clone(),
            components: self.components.clone(),
        }
    }
}

/// A component that has no identifier yet.
#[derive(Debug, Clone)]
pub struct NewTokenizationComponent {
    pub main_type: String,
    pub sub_type: String,
    pub components: String,
}

/// The envelope of every catalogue response.
#[derive(Debug, Clone)]
pub struct ApiResponse<T> {
    pub success: bool,
    pub data: Option<T>,
    pub message: Option<String>,
}

/// The views of a list of components.
pub open spec fn components_view(v: Seq<TokenizationComponent>) -> Seq<ComponentView> {
    v.map_values(|c: TokenizationComponent| c@)
}

/// The index key of a component: its main type, then (at depth 2) its sub type.
pub open spec fn component_key(c: ComponentView, depth: nat) -> Seq<Seq<char>> {
    seq![c.main_type, c.sub_type].subrange(0, depth as int)
}

/// The positions of the components whose key is `key`, in order.
pub open spec fn positions(comps: Seq<ComponentView>, key: Seq<Seq<char>>, depth: nat) -> Seq<usize>
    decreases comps.len(),
{
    if comps.len() == 0 {
        Seq::empty()
    } else {
        let rest = positions(comps.drop_last(), key, depth);
        if component_key(comps.last(), depth) == key {
            rest.push((comps.len() - 1) as usize)
        } else {
            rest
        }
    }
}

/// The components whose key is `key`, in order.
pub open spec fn matching(comps: Seq<ComponentView>, key: Seq<Seq<char>>, depth: nat) -> Seq<ComponentView>
    decreases comps.len(),
{
    if comps.len() == 0 {
        Seq::empty()
    } else {
        let rest = matching(comps.drop_last(), key, depth);
        if component_key(comps.last(), depth) == key {
            rest.push(comps.last())
        } else {
            rest
        }
    }
}

/// The components of the given main type, in order.
pub open spec fn of_main_type(comps: Seq<ComponentView>, main_type: Seq<char>) -> Seq<ComponentView> {
    matching(comps, seq![main_type], 1)
}

/// The components of the given main type and sub type, in order.
pub open spec fn of_sub_type(comps: Seq<ComponentView>, main_type: Seq<char>, sub_type: Seq<char>) -> Seq<ComponentView> {
    matching(comps, seq![main_type, sub_type], 2)
}

proof fn lemma_push(comps: Seq<ComponentView>, c: ComponentView, key: Seq<Seq<char>>, depth: nat)
    ensures
        positions(comps.push(c), key, depth) == if component_key(c, depth) == key {
            positions(comps, key, depth).push(comps.len() as usize)
        } else {
            positions(comps, key, depth)
        },
        matching(comps.push(c), key, depth) == if component_key(c, depth) == key {
            matching(comps, key, depth).push(c)
        } else {
            matching(comps, key, depth)
        },
{
    assert(comps.push(c).drop_last() =~= comps);
}

/// Each position holds a component with the key, and the components at the
/// positions are the matching components.
proof fn lemma_positions(comps: Seq<ComponentView>, key: Seq<Seq<char>>, depth: nat)
    requires
        comps.len() <= usize::MAX,
    ensures
        forall|k: int|
            0 <= k < positions(comps, key, depth).len() ==> #[trigger] positions(comps, key, depth)[k] < comps.len()
                && component_key(comps[positions(comps, key, depth)[k] as int], depth) == key,
        positions(comps, key, depth).map_values(|j: usize| comps[j as int]) == matching(comps, key, depth),
    decreases comps.len(),
{
    if comps.len() > 0 {
        let p = comps.drop_last();
        let c = comps.last();
        assert(p.push(c) =~= comps);
        lemma_push(p, c, key, depth);
        lemma_positions(p, key, depth);
        let pp = positions(p, key, depth);
        assert(pp.map_values(|j: usize| comps[j as int]) =~= pp.map_values(|j: usize| p[j as int]));
        if component_key(c, depth) == key {
            assert(pp.push((comps.len() - 1) as usize).map_values(|j: usize| comps[j as int]) =~= pp.map_values(
                |j: usize| comps[j as int],
            ).push(c));
        }
    }
}

/// The strings of a component's key at the given depth.
fn key_of(main_type: &String, sub_type: &String, depth: usize) -> (r: Vec<String>)
    requires
        1 <= depth <= 2,
    ensures
        strings_view(r@) == seq![main_type@, sub_type@].subrange(0, depth as int),
{
    let mut r: Vec<String> = Vec::new();
    r.push(main_type.clone());
    if depth == 2 {
        r.push(sub_type.clone());
    }
    assert(strings_view(r@) =~= seq![main_type@, sub_type@].subrange(0, depth as int));
    r
}

/// Whether two lists of strings are equal.
fn same_strings(a: &Vec<String>, b: &Vec<String>) -> (r: bool)
    ensures
        r == (strings_view(a@) == strings_view(b@)),
{
    if a.len() != b.len() {
        return false;
    }
    let mut i: usize = 0;
    while i < a.len()
        invariant
            a@.len() == b@.len(),
            i <= a@.len(),
            forall|j: int| 0 <= j < i ==> a@[j]@ == b@[j]@,
        decreases a@.len() - i,
    {
        if !a[i].eq(&b[i]) {
            assert(strings_view(a@)[i as int] != strings_view(b@)[i as int]);
            return false;
        }
        i = i + 1;
    }
    assert(strings_view(a@) =~= strings_view(b@));
    true
}

/// For each distinct key, the positions of the components that have it.
struct TypeIndex {
    depth: usize,
    keys: Vec<Vec<String>>,
    lists: Vec<Vec<usize>>,
}

impl TypeIndex {
    spec fn key(&self, i: int) -> Seq<Seq<char>> {
        strings_view(self.keys@[i]@)
    }

    spec fn has_key(&self, k: Seq<Seq<char>>) -> bool {
        exists|i: int| 0 <= i < self.keys@.len() && self.key(i) == k
    }

    spec fn wf(&self, comps: Seq<ComponentView>) -> bool {
        &&& 1 <= self.depth <= 2
        &&& comps.len() <= usize::MAX
        &&& self.keys@.len() == self.lists@.len()
        &&& forall|i: int, j: int|
            0 <= i < self.keys@.len() && 0 <= j < self.keys@.len() && i != j ==> #[trigger] self.key(i)
                != #[trigger] self.key(j)
        &&& forall|i: int|
            0 <= i < self.keys@.len() ==> #[trigger] self.lists@[i]@ == positions(comps, self.key(i), self.depth as nat)
                && self.lists@[i]@.len() > 0
        &&& forall|p: int| 0 <= p < comps.len() ==> self.has_key(component_key(#[trigger] comps[p], self.depth as nat))
    }

    fn new(depth: usize) -> (r: TypeIndex)
        requires
            1 <= depth <= 2,
        ensures
            r.wf(Seq::empty()),
            r.depth == depth,
    {
        TypeIndex { depth, keys: Vec::new(), lists: Vec::new() }
    }

    fn find(&self, key: &Vec<String>) -> (r: Option<usize>)
        requires
            self.keys@.len() == self.lists@.len(),
        ensures
            match r {
                Some(i) => i < self.keys@.len() && self.key(i as int) == strings_view(key@),
                None => forall|i: int| 0 <= i < self.keys@.len() ==> self.key(i) != strings_view(key@),
            },
    {
        let mut i: usize = 0;
        while i < self.keys.len()
            invariant
                i <= self.keys@.len(),
                forall|j: int| 0 <= j < i ==> self.key(j) != strings_view(key@),
            decreases self.keys@.len() - i,
        {
            if same_strings(&self.keys[i], key) {
                return Some(i);
            }
            i = i + 1;
        }
        None
    }

    /// Records that the component `c`, with key `key`, now stands at
    /// position `comps.len()`.
    fn record(&mut self, comps: Ghost<Seq<ComponentView>>, c: Ghost<ComponentView>, key: Vec<String>, n_pos: usize)
        requires
            old(self).wf(comps@),
            n_pos == comps@.len(),
            comps@.len() < usize::MAX,
            strings_view(key@) == component_key(c@, old(self).depth as nat),
        ensures
            final(self).wf(comps@.push(c@)),
            final(self).depth == old(self).depth,
    {
        let n: usize = self.lists.len();
        let ghost n_comps = comps@.len();
        let ghost d = self.depth as nat;
        let ghost ck = strings_view(key@);
        let ghost next = comps@.push(c@);
        proof {
            assert forall|k: Seq<Seq<char>>| positions(next, k, d) == if component_key(c@, d) == k {
                positions(comps@, k, d).push(n_pos)
            } else {
                positions(comps@, k, d)
            } by {
                lemma_push(comps@, c@, k, d);
            }
        }
        match self.find(&key) {
            Some(i) => {
                let mut l = self.lists.remove(i);
                l.push(n_pos);
                let ghost lg = l;
                self.lists.insert(i, l);
                assert(self.lists@ =~= old(self).lists@.update(i as int, lg));
                assert forall|a: int, b: int|
                    0 <= a < self.keys@.len() && 0 <= b < self.keys@.len() && a != b
                    implies #[trigger] self.key(a) != #[trigger] self.key(b) by {
                    assert(self.key(a) == old(self).key(a));
                    assert(self.key(b) == old(self).key(b));
                }
                assert forall|j: int| 0 <= j < self.keys@.len() implies #[trigger] self.lists@[j]@
                    == positions(next, self.key(j), d) && self.lists@[j]@.len() > 0 by {
                    assert(self.key(j) == old(self).key(j));
                    if j != i {
                        assert(old(self).key(j) != old(self).key(i as int));
                    }
                }
                assert forall|p: int| 0 <= p < next.len() implies self.has_key(component_key(#[trigger] next[p], d)) by {
                    if p == n_comps {
                        assert(self.key(i as int) == component_key(next[p], d));
                    } else {
                        assert(next[p] == comps@[p]);
                        assert(old(self).has_key(component_key(comps@[p], d)));
                        let j = choose|j: int|
                            0 <= j < old(self).keys@.len() && old(self).key(j) == component_key(comps@[p], d);
                        assert(self.key(j) == component_key(next[p], d));
                    }
                }
            },
            None => {
                proof {
                    lemma_positions(comps@, ck, d);
                    if positions(comps@, ck, d).len() > 0 {
                        let p = positions(comps@, ck, d)[0] as int;
                        assert(component_key(comps@[p], d) == ck);
                    }
                    assert(positions(comps@, ck, d) =~= Seq::<usize>::empty());
                }
                self.keys.push(key);
                let mut l: Vec<usize> = Vec::new();
                l.push(n_pos);
                self.lists.push(l);
                assert(self.lists@[n as int]@ =~= positions(next, ck, d));
                assert forall|j: int| 0 <= j < self.keys@.len() implies #[trigger] self.lists@[j]@
                    == positions(next, self.key(j), d) && self.lists@[j]@.len() > 0 by {
                    if j != n {
                        assert(self.key(j) == old(self).key(j));
                        assert(self.lists@[j] == old(self).lists@[j]);
                    }
                }
                assert forall|a: int, b: int|
                    0 <= a < self.keys@.len() && 0 <= b < self.keys@.len() && a != b
                    implies #[trigger] self.key(a) != #[trigger] self.key(b) by {
                    if a != n && b != n {
                        assert(self.key(a) == old(self).key(a));
                        assert(self.key(b) == old(self).key(b));
                    } else if a == n {
                        assert(self.key(b) == old(self).key(b));
                    } else {
                        assert(self.key(a) == old(self).key(a));
                    }
                }
                assert forall|p: int| 0 <= p < next.len() implies self.has_key(component_key(#[trigger] next[p], d)) by {
                    if p == n_comps {
                        assert(self.key(n as int) == component_key(next[p], d));
                    } else {
                        assert(next[p] == comps@[p]);
                        assert(old(self).has_key(component_key(comps@[p], d)));
                        let j = choose|j: int|
                            0 <= j < old(self).keys@.len() && old(self).key(j) == component_key(comps@[p], d);
                        assert(self.key(j) == component_key(next[p], d));
                    }
                }
            },
        }
    }
}

/// The catalogue: components in order of insertion, indexed by main type and
/// by (main type, sub type).
pub struct InMemoryDatabase {
    components: Vec<TokenizationComponent>,
    main_type_index: TypeIndex,
    sub_type_index: TypeIndex,
}

impl InMemoryDatabase {
    /// The stored components, in order of insertion.
    pub closed spec fn components(&self) -> Seq<ComponentView> {
        components_view(self.components@)
    }

    pub closed spec fn wf(&self) -> bool {
        &&& self.main_type_index.wf(self.components())
        &&& self.main_type_index.depth == 1
        &&& self.sub_type_index.wf(self.components())
        &&& self.sub_type_index.depth == 2
    }

    pub fn new() -> (r: InMemoryDatabase)
        ensures
            r.wf(),
            r.components() == Seq::<ComponentView>::empty(),
    {
        let r = InMemoryDatabase {
            components: Vec::new(),
            main_type_index: TypeIndex::new(1),
            sub_type_index: TypeIndex::new(2),
        };
        assert(r.components() =~= Seq::<ComponentView>::empty());
        r
    }

    /// Appends a component, with the next identifier, and returns that
    /// identifier.
    pub fn insert(&mut self, component: &NewTokenizationComponent) -> (id: u32)
        requires
            old(self).wf(),
            old(self).components().len() < u32::MAX,
        ensures
            final(self).wf(),
            id == old(self).components().len() + 1,
            final(self).components() == old(self).components().push(
                ComponentView {
                    id,
                    main_type: component.main_type@,
                    sub_type: component.sub_type@,
                    components: component.components@,
                },
            ),
    {
        let n = self.components.len();
        let id = n as u32 + 1;
        let c = TokenizationComponent {
            id,
            main_type: component.main_type.clone(),
            sub_type: component.sub_type.clone(),
            components: component.components.clone(),
        };
        let ghost before = self.components();
        let main_key = key_of(&c.main_type, &c.sub_type, 1);
        let sub_key = key_of(&c.main_type, &c.sub_type, 2);
        self.main_type_index.record(Ghost(before), Ghost(c@), main_key, n);
        self.sub_type_index.record(Ghost(before), Ghost(c@), sub_key, n);
        self.components.push(c);
        assert(self.components() =~= before.push(c@));
        id
    }

    /// How many components are stored.
    pub fn len(&self) -> (r: usize)
        ensures
            r == self.components().len(),
    {
        self.components.len()
    }

    /// Copies of all components, in order of insertion.
    pub fn all_components(&self) -> (r: Vec<TokenizationComponent>)
        ensures
            components_view(r@) == self.components(),
    {
        let mut r: Vec<TokenizationComponent> = Vec::new();
        let mut i: usize = 0;
        while i < self.components.len()
            invariant
                i <= self.components@.len(),
                r@.len() == i,
                forall|j: int| 0 <= j < i ==> #[trigger] r@[j]@ == self.components@[j]@,
            decreases self.components@.len() - i,
        {
            r.push(self.components[i].duplicate());
            i = i + 1;
        }
        assert(components_view(r@) =~= self.components());
        r
    }

    /// Copies of the components at the given positions.
    fn at_positions(&self, list: &Vec<usize>) -> (r: Vec<TokenizationComponent>)
        requires
            forall|k: int| 0 <= k < list@.len() ==> #[trigger] list@[k] < self.components@.len(),
        ensures
            components_view(r@) == list@.map_values(|j: usize| self.components()[j as int]),
    {
        let mut r: Vec<TokenizationComponent> = Vec::new();
        let mut k: usize = 0;
        while k < list.len()
            invariant
                k <= list@.len(),
                forall|k: int| 0 <= k < list@.len() ==> #[trigger] list@[k] < self.components@.len(),
                r@.len() == k,
                forall|j: int| 0 <= j < k ==> #[trigger] r@[j]@ == self.components@[list@[j] as int]@,
            decreases list@.len() - k,
        {
            r.push(self.components[list[k]].duplicate());
            k = k + 1;
        }
        assert(components_view(r@) =~= list@.map_values(|j: usize| self.components()[j as int]));
        r
    }

    /// Copies of the components of the given main type, in order; `None`
    /// when there is none.
    pub fn components_of_type(&self, main_type: &str) -> (r: Option<Vec<TokenizationComponent>>)
        requires
            self.wf(),
        ensures
            match r {
                Some(v) => components_view(v@) == of_main_type(self.components(), main_type@)
                    && v@.len() > 0,
                None => of_main_type(self.components(), main_type@).len() == 0,
            },
    {
        let m = main_type.to_owned();
        let key = key_of(&m, &m, 1);
        let ghost k = seq![main_type@];
        assert(strings_view(key@) =~= k);
        self.lookup(&self.main_type_index, &key)
    }

    /// Copies of the components of the given main type and sub type, in
    /// order; `None` when there is none.
    pub fn components_of_subtype(&self, main_type: &str, sub_type: &str) -> (r: Option<Vec<TokenizationComponent>>)
        requires
            self.wf(),
        ensures
            match r {
                Some(v) => components_view(v@) == of_sub_type(self.components(), main_type@, sub_type@)
                    && v@.len() > 0,
                None => of_sub_type(self.components(), main_type@, sub_type@).len() == 0,
            },
    {
        let m = main_type.to_owned();
        let s = sub_type.to_owned();
        let key = key_of(&m, &s, 2);
        let ghost k = seq![main_type@, sub_type@];
        assert(strings_view(key@) =~= k);
        self.lookup(&self.sub_type_index, &key)
    }

    fn lookup(&self, index: &TypeIndex, key: &Vec<String>) -> (r: Option<Vec<TokenizationComponent>>)
        requires
            index.wf(self.components()),
        ensures
            match r {
                Some(v) => components_view(v@) == matching(self.components(), strings_view(key@), index.depth as nat)
                    && v@.len() > 0,
                None => matching(self.components(), strings_view(key@), index.depth as nat).len() == 0,
            },
    {
        let ghost comps = self.components();
        let ghost d = index.depth as nat;
        let ghost k = strings_view(key@);
        proof {
            lemma_positions(comps, k, d);
        }
        match index.find(key) {
            Some(i) => {
                let list = &index.lists[i];
                assert(list@ == positions(comps, k, d));
                let r = self.at_positions(list);
                assert(components_view(r@).len() == r@.len());
                assert(list@.len() > 0);
                Some(r)
            },
            None => {
                proof {
                    if positions(comps, k, d).len() > 0 {
                        let p = positions(comps, k, d)[0] as int;
                        assert(component_key(comps[p], d) == k);
                    }
                }
                None
            },
        }
    }
}

/// How many of `comps` have main type `t`.
pub open spec fn type_count(comps: Seq<ComponentView>, t: Seq<char>) -> nat
    decreases comps.len(),
{
    if comps.len() == 0 {
        0
    } else {
        type_count(comps.drop_last(), t) + if comps.last().main_type == t {
            1nat
        } else {
            0nat
        }
    }
}

/// Whether some entry of `counts` is for main type `t`.
pub open spec fn counts_type(counts: Seq<(String, usize)>, t: Seq<char>) -> bool {
    exists|e: int| 0 <= e < counts.len() && counts[e].0@ == t
}

proof fn lemma_type_count(comps: Seq<ComponentView>, t: Seq<char>)
    ensures
        type_count(comps, t) <= comps.len(),
        type_count(comps, t) > 0 ==> exists|p: int| 0 <= p < comps.len() && comps[p].main_type == t,
    decreases comps.len(),
{
    if comps.len() > 0 {
        lemma_type_count(comps.drop_last(), t);
        if type_count(comps.drop_last(), t) > 0 {
            let p = choose|p: int| 0 <= p < comps.drop_last().len() && comps.drop_last()[p].main_type == t;
            assert(comps[p].main_type == t);
        }
    }
}

/// For each main type among `components`, how many components have it; one
/// entry per main type, in order of first appearance.
pub fn count_by_main_type(components: &Vec<TokenizationComponent>) -> (r: Vec<(String, usize)>)
    ensures
        forall|a: int, b: int|
            0 <= a < r@.len() && 0 <= b < r@.len() && a != b ==> #[trigger] r@[a].0@ != #[trigger] r@[b].0@,
        forall|e: int|
            0 <= e < r@.len() ==> #[trigger] r@[e].1 == type_count(components_view(components@), r@[e].0@)
                && r@[e].1 > 0,
        forall|p: int|
            0 <= p < components@.len() ==> counts_type(r@, #[trigger] components@[p].main_type@),
{
    let ghost all = components_view(components@);
    let mut r: Vec<(String, usize)> = Vec::new();
    let mut i: usize = 0;
    while i < components.len()
        invariant
            all == components_view(components@),
            i <= components@.len(),
            forall|a: int, b: int|
                0 <= a < r@.len() && 0 <= b < r@.len() && a != b ==> #[trigger] r@[a].0@ != #[trigger] r@[b].0@,
            forall|e: int|
                0 <= e < r@.len() ==> #[trigger] r@[e].1 == type_count(all.subrange(0, i as int), r@[e].0@)
                    && r@[e].1 > 0,
            forall|p: int| 0 <= p < i ==> counts_type(r@, #[trigger] components@[p].main_type@),
        decreases components@.len() - i,
    {
        let c = &components[i];
        let ghost pre = all.subrange(0, i as int);
        let ghost post = all.subrange(0, i + 1);
        let ghost old_r = r@;
        proof {
            assert(post.drop_last() =~= pre);
            assert(post.last() == c@);
            lemma_type_count(pre, c.main_type@);
        }
        let mut e: usize = 0;
        let mut found = false;
        while e < r.len()
            invariant
                r@ == old_r,
                e <= r@.len(),
                forall|x: int| 0 <= x < e ==> r@[x].0@ != c.main_type@,
                found ==> e < r@.len() && r@[e as int].0@ == c.main_type@,
            ensures
                r@ == old_r,
                found ==> e < r@.len() && r@[e as int].0@ == c.main_type@,
                !found ==> forall|x: int| 0 <= x < r@.len() ==> r@[x].0@ != c.main_type@,
            decreases r@.len() - e + if found { 0int } else { 1int },
        {
            if r[e].0.eq(&c.main_type) {
                found = true;
                break;
            }
            e = e + 1;
        }
        if found {
            let n = r[e].1;
            proof {
                lemma_type_count(pre, c.main_type@);
            }
            r.set(e, (c.main_type.clone(), n + 1));
            assert forall|x: int| 0 <= x < r@.len() implies r@[x].0@ == old_r[x].0@ && (x != e ==> r@[x] == old_r[x]) by {}
            assert forall|x: int| 0 <= x < r@.len() implies #[trigger] r@[x].1 == type_count(post, r@[x].0@) && r@[x].1 > 0 by {
                assert(type_count(post, r@[x].0@) == type_count(pre, r@[x].0@) + if c@.main_type == r@[x].0@ {
                    1nat
                } else {
                    0nat
                });
                if x != e {
                    assert(old_r[x].0@ != old_r[e as int].0@);
                }
            }
            assert forall|a: int, b: int|
                0 <= a < r@.len() && 0 <= b < r@.len() && a != b implies #[trigger] r@[a].0@ != #[trigger] r@[b].0@ by {
                assert(old_r[a].0@ != old_r[b].0@);
            }
            assert forall|p: int| 0 <= p < i + 1 implies counts_type(r@, #[trigger] components@[p].main_type@) by {
                if p < i {
                    assert(counts_type(old_r, components@[p].main_type@));
                    let x = choose|x: int| 0 <= x < old_r.len() && old_r[x].0@ == components@[p].main_type@;
                    assert(r@[x].0@ == components@[p].main_type@);
                } else {
                    assert(r@[e as int].0@ == components@[p].main_type@);
                }
            }
        } else {
            proof {
                if type_count(pre, c.main_type@) > 0 {
                    let p = choose|p: int| 0 <= p < pre.len() && pre[p].main_type == c.main_type@;
                    assert(components@[p].main_type@ == c.main_type@);
                    assert(counts_type(old_r, components@[p].main_type@));
                }
            }
            r.push((c.main_type.clone(), 1));
            assert forall|x: int| 0 <= x < r@.len() implies #[trigger] r@[x].1 == type_count(post, r@[x].0@) && r@[x].1 > 0 by {
                assert(type_count(post, r@[x].0@) == type_count(pre, r@[x].0@) + if c@.main_type == r@[x].0@ {
                    1nat
                } else {
                    0nat
                });
                if x < old_r.len() {
                    assert(r@[x] == old_r[x]);
                }
            }
            assert forall|a: int, b: int|
                0 <= a < r@.len() && 0 <= b < r@.len() && a != b implies #[trigger] r@[a].0@ != #[trigger] r@[b].0@ by {
                if a < old_r.len() && b < old_r.len() {
                    assert(old_r[a].0@ != old_r[b].0@);
                }
            }
            assert forall|p: int| 0 <= p < i + 1 implies counts_type(r@, #[trigger] components@[p].main_type@) by {
                if p < i {
                    assert(counts_type(old_r, components@[p].main_type@));
                    let x = choose|x: int| 0 <= x < old_r.len() && old_r[x].0@ == components@[p].main_type@;
                    assert(r@[x].0@ == components@[p].main_type@);
                } else {
                    assert(r@[old_r.len() as int].0@ == components@[p].main_type@);
                }
            }
        }
        i = i + 1;
    }
    assert(all.subrange(0, i as int) =~= all);
    r
}

} // verus!
