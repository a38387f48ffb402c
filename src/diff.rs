use vstd::prelude::*;

verus! {

/// The declaration of one component: its type tag, its settings, and the
/// names of the components it reads from.
#[derive(Debug)]
pub struct Component {
    pub component_type: String,
    pub settings: String,
    pub inputs: Vec<String>,
}

/// The mathematical content of a `Component`.
pub struct ComponentModel {
    pub component_type: Seq<char>,
    pub settings: Seq<char>,
    pub inputs: Seq<Seq<char>>,
}

/// The texts held by a vector of strings.
pub open spec fn texts(v: Seq<String>) -> Seq<Seq<char>> {
    v.map_values(|s: String| s@)
}

impl View for Component {
    type V = ComponentModel;

    open spec fn view(&self) -> ComponentModel {
        ComponentModel {
            component_type: self.component_type@,
            settings: self.settings@,
            inputs: texts(self.inputs@),
        }
    }
}

/// Named component declarations, in the order they were declared.
pub open spec fn entries(v: Seq<(String, Component)>) -> Seq<(Seq<char>, ComponentModel)> {
    v.map_values(|p: (String, Component)| (p.0@, p.1@))
}

/// Index of the last entry named `k`, or -1 when there is none.
pub open spec fn find_key<V>(s: Seq<(Seq<char>, V)>, k: Seq<char>) -> int
    decreases s.len(),
{
    if s.len() == 0 {
        -1
    } else if s.last().0 == k {
        s.len() - 1
    } else {
        find_key(s.drop_last(), k)
    }
}

/// Whether some entry is named `k`.
pub open spec fn has_key<V>(s: Seq<(Seq<char>, V)>, k: Seq<char>) -> bool {
    find_key(s, k) >= 0
}

/// Whether a sequence of names holds `k`.
pub open spec fn has_name(s: Seq<Seq<char>>, k: Seq<char>) -> bool
    decreases s.len(),
{
    s.len() > 0 && (s.last() == k || has_name(s.drop_last(), k))
}

/// The declaration under `k` (meaningful when `has_key(s, k)`).
pub open spec fn decl_of<V>(s: Seq<(Seq<char>, V)>, k: Seq<char>) -> V {
    s[find_key(s, k)].1
}

/// Present in the new declarations only.
pub open spec fn is_added<V>(old: Seq<(Seq<char>, V)>, new: Seq<(Seq<char>, V)>, k: Seq<char>) -> bool {
    has_key(new, k) && !has_key(old, k)
}

/// Present in the old declarations only.
pub open spec fn is_removed<V>(old: Seq<(Seq<char>, V)>, new: Seq<(Seq<char>, V)>, k: Seq<char>) -> bool {
    has_key(old, k) && !has_key(new, k)
}

/// Present in both, with declarations that differ.
pub open spec fn is_changed<V>(old: Seq<(Seq<char>, V)>, new: Seq<(Seq<char>, V)>, k: Seq<char>) -> bool {
    has_key(old, k) && has_key(new, k) && decl_of(old, k) != decl_of(new, k)
}

/// Names present in `s`.
pub open spec fn key_set<V>(s: Seq<(Seq<char>, V)>) -> Set<Seq<char>> {
    Set::new(|k: Seq<char>| has_key(s, k))
}

pub open spec fn added_set<V>(old: Seq<(Seq<char>, V)>, new: Seq<(Seq<char>, V)>) -> Set<Seq<char>> {
    Set::new(|k: Seq<char>| is_added(old, new, k))
}

pub open spec fn removed_set<V>(old: Seq<(Seq<char>, V)>, new: Seq<(Seq<char>, V)>) -> Set<Seq<char>> {
    Set::new(|k: Seq<char>| is_removed(old, new, k))
}

pub open spec fn changed_set<V>(old: Seq<(Seq<char>, V)>, new: Seq<(Seq<char>, V)>) -> Set<Seq<char>> {
    Set::new(|k: Seq<char>| is_changed(old, new, k))
}

/// New names that are neither added nor changed.
pub open spec fn unchanged_set<V>(old: Seq<(Seq<char>, V)>, new: Seq<(Seq<char>, V)>) -> Set<Seq<char>> {
    key_set(new).difference(added_set(old, new)).difference(changed_set(old, new))
}

/// The three sets of a difference are pairwise disjoint, and together with
/// the unchanged names they make up exactly the new names.
pub proof fn lemma_diff_partition<V>(old: Seq<(Seq<char>, V)>, new: Seq<(Seq<char>, V)>)
    ensures
        added_set(old, new).disjoint(removed_set(old, new)),
        added_set(old, new).disjoint(changed_set(old, new)),
        removed_set(old, new).disjoint(changed_set(old, new)),
        added_set(old, new) + changed_set(old, new) + unchanged_set(old, new) == key_set(new),
{
    assert(added_set(old, new) + changed_set(old, new) + unchanged_set(old, new) =~= key_set(new));
}

pub proof fn lemma_find_key_last<V>(s: Seq<(Seq<char>, V)>, k: Seq<char>, i: int)
    requires
        -1 <= i < s.len(),
        i >= 0 ==> s[i].0 == k,
        forall|j: int| i < j < s.len() ==> s[j].0 != k,
    ensures
        find_key(s, k) == i,
    decreases s.len(),
{
    if s.len() > 0 && i != s.len() - 1 {
        assert(s.last().0 != k);
        assert forall|j: int| i < j < s.len() - 1 implies s.drop_last()[j].0 != k by {
            assert(s.drop_last()[j] == s[j]);
        }
        lemma_find_key_last(s.drop_last(), k, i);
    }
}

/// The index of the last entry named `key`.
pub(crate) fn find_entry(v: &Vec<(String, Component)>, key: &String) -> (r: Option<usize>)
    ensures
        r is None <==> !has_key(entries(v@), key@),
        r is Some ==> r->0 == find_key(entries(v@), key@),
        r is Some ==> r->0 < v.len(),
{
    let ghost s = entries(v@);
    let mut i: usize = v.len();
    while i > 0
        invariant
            i <= v.len(),
            s == entries(v@),
            forall|j: int| i <= j < v.len() ==> s[j].0 != key@,
        decreases i,
    {
        i = i - 1;
        if v[i].0 == *key {
            proof {
                lemma_find_key_last(s, key@, i as int);
            }
            return Some(i);
        }
    }
    proof {
        lemma_find_key_last(s, key@, -1);
    }
    None
}

fn same_texts(a: &Vec<String>, b: &Vec<String>) -> (r: bool)
    ensures
        r == (texts(a@) == texts(b@)),
{
    if a.len() != b.len() {
        assert(texts(a@).len() != texts(b@).len());
        return false;
    }
    let mut i: usize = 0;
    while i < a.len()
        invariant
            a.len() == b.len(),
            i <= a.len(),
            forall|j: int| 0 <= j < i ==> texts(a@)[j] == texts(b@)[j],
        decreases a.len() - i,
    {
        if a[i] != b[i] {
            assert(texts(a@)[i as int] != texts(b@)[i as int]);
            return false;
        }
        i = i + 1;
    }
    assert(texts(a@) =~= texts(b@));
    true
}

impl Component {
    /// Whether two declarations are equal in type, settings and inputs.
    pub fn same_as(&self, other: &Component) -> (r: bool)
        ensures
            r == (self@ == other@),
    {
        self.component_type == other.component_type && self.settings == other.settings
            && same_texts(&self.inputs, &other.inputs)
    }
}

/// What changes between two sets of declarations of one kind.
#[derive(Debug)]
pub struct Difference {
    pub to_add: Vec<String>,
    pub to_remove: Vec<String>,
    pub to_change: Vec<String>,
}

impl Difference {
    /// The names of a difference, each as a set of texts, match the added,
    /// removed and changed declarations.
    pub open spec fn describes(
        &self,
        old: Seq<(Seq<char>, ComponentModel)>,
        new: Seq<(Seq<char>, ComponentModel)>,
    ) -> bool {
        &&& forall|k: Seq<char>| has_name(texts(self.to_add@), k) <==> is_added(old, new, k)
        &&& forall|k: Seq<char>| has_name(texts(self.to_remove@), k) <==> is_removed(old, new, k)
        &&& forall|k: Seq<char>| has_name(texts(self.to_change@), k) <==> is_changed(old, new, k)
    }

    /// Compares old and new declarations of one kind.
    pub fn between(old: &Vec<(String, Component)>, new: &Vec<(String, Component)>) -> (r: Difference)
        ensures
            r.describes(entries(old@), entries(new@)),
    {
        let ghost so = entries(old@);
        let ghost sn = entries(new@);
        let mut to_add: Vec<String> = Vec::new();
        let mut to_change: Vec<String> = Vec::new();
        let mut i: usize = 0;
        while i < new.len()
            invariant
                i <= new.len(),
                so == entries(old@),
                sn == entries(new@),
                forall|k: Seq<char>|
                    #[trigger] has_name(texts(to_add@), k) <==> (has_key(sn.subrange(0, i as int), k)
                        && !has_key(so, k)),
                forall|k: Seq<char>|
                    #[trigger] has_name(texts(to_change@), k) <==> (has_key(sn.subrange(0, i as int), k)
                        && has_key(so, k) && decl_of(so, k) != decl_of(sn, k)),
            decreases new.len() - i,
        {
            let name = &new[i].0;
            let ghost pre = sn.subrange(0, i as int);
            let ghost post = sn.subrange(0, i + 1);
            assert(post.drop_last() =~= pre);
            assert(post.last().0 == name@);
            let ghost old_add = to_add@;
            let ghost old_change = to_change@;
            let found = find_entry(old, name);
            match found {
                None => {
                    to_add.push(name.clone());
                    assert(texts(to_add@).drop_last() =~= texts(old_add));
                assert forall|k: Seq<char>| has_name(texts(to_add@), k) == (k == name@ || has_name(texts(old_add), k)) by {
                    lemma_has_name_step(to_add@, k);
                }
                },
                Some(j) => {
                    proof {
                        lemma_entry_name_is_key(sn, i as int);
                    }
                    let n = find_entry(new, name).unwrap();
                    if !old[j].1.same_as(&new[n].1) {
                        to_change.push(name.clone());
                        assert(texts(to_change@).drop_last() =~= texts(old_change));
                    assert forall|k: Seq<char>| has_name(texts(to_change@), k) == (k == name@ || has_name(texts(old_change), k)) by {
                        lemma_has_name_step(to_change@, k);
                    }
                    }
                },
            }
            assert forall|k: Seq<char>|
                has_name(texts(to_add@), k) <==> (has_key(post, k) && !has_key(so, k)) by {
                lemma_has_key_step(post, k);
                assert(has_name(texts(old_add), k) <==> (has_key(pre, k) && !has_key(so, k)));
            }
            assert forall|k: Seq<char>|
                has_name(texts(to_change@), k) <==> (has_key(post, k) && has_key(so, k)
                    && decl_of(so, k) != decl_of(sn, k)) by {
                lemma_has_key_step(post, k);
                assert(has_name(texts(old_change), k) <==> (has_key(pre, k) && has_key(so, k)
                    && decl_of(so, k) != decl_of(sn, k)));
            }
            i = i + 1;
        }
        assert(sn.subrange(0, new.len() as int) =~= sn);
        let mut to_remove: Vec<String> = Vec::new();
        let mut i: usize = 0;
        while i < old.len()
            invariant
                i <= old.len(),
                so == entries(old@),
                sn == entries(new@),
                forall|k: Seq<char>|
                    #[trigger] has_name(texts(to_remove@), k) <==> (has_key(so.subrange(0, i as int), k)
                        && !has_key(sn, k)),
            decreases old.len() - i,
        {
            let name = &old[i].0;
            let ghost pre = so.subrange(0, i as int);
            let ghost post = so.subrange(0, i + 1);
            assert(post.drop_last() =~= pre);
            assert(post.last().0 == name@);
            let ghost old_remove = to_remove@;
            if find_entry(new, name).is_none() {
                to_remove.push(name.clone());
                assert(texts(to_remove@).drop_last() =~= texts(old_remove));
                assert forall|k: Seq<char>| has_name(texts(to_remove@), k) == (k == name@ || has_name(texts(old_remove), k)) by {
                    lemma_has_name_step(to_remove@, k);
                }
            }
            assert forall|k: Seq<char>|
                has_name(texts(to_remove@), k) <==> (has_key(post, k) && !has_key(sn, k)) by {
                lemma_has_key_step(post, k);
                assert(has_name(texts(old_remove), k) <==> (has_key(pre, k) && !has_key(sn, k)));
            }
            i = i + 1;
        }
        assert(so.subrange(0, old.len() as int) =~= so);
        Difference { to_add, to_remove, to_change }
    }
}

/// The name of any entry is a key of the sequence.
proof fn lemma_entry_name_is_key<V>(s: Seq<(Seq<char>, V)>, i: int)
    requires
        0 <= i < s.len(),
    ensures
        has_key(s, s[i].0),
{
    let k = s[i].0;
    lemma_find_key_bounds(s, k);
    if find_key(s, k) == -1 {
        assert(s[i].0 != k);
    }
}



/// For a difference computed between two declaration lists: no name is both
/// added and removed, added and changed, or removed and changed; and a name
/// is declared in the new list exactly when it is added, changed, or
/// unchanged (present in both with an equal declaration).
pub proof fn lemma_difference_partition(
    d: Difference,
    old: Seq<(Seq<char>, ComponentModel)>,
    new: Seq<(Seq<char>, ComponentModel)>,
    k: Seq<char>,
)
    requires
        d.describes(old, new),
    ensures
        !(has_name(texts(d.to_add@), k) && has_name(texts(d.to_remove@), k)),
        !(has_name(texts(d.to_add@), k) && has_name(texts(d.to_change@), k)),
        !(has_name(texts(d.to_remove@), k) && has_name(texts(d.to_change@), k)),
        has_key(new, k) <==> (has_name(texts(d.to_add@), k) || has_name(texts(d.to_change@), k)
            || unchanged_set(old, new).contains(k)),
{
    lemma_diff_partition(old, new);
    assert(unchanged_set(old, new).contains(k) <==> (has_key(new, k) && !is_added(old, new, k)
        && !is_changed(old, new, k)));
}

/// A pipeline graph: its sources, transforms and sinks by name.
#[derive(Debug)]
pub struct Config {
    pub sources: Vec<(String, Component)>,
    pub transforms: Vec<(String, Component)>,
    pub sinks: Vec<(String, Component)>,
    /// Whether sink healthchecks gate the first start.
    pub healthchecks: bool,
}

impl Config {
    /// A graph with no components.
    pub fn empty() -> (r: Config)
        ensures
            r.sources@.len() == 0,
            r.transforms@.len() == 0,
            r.sinks@.len() == 0,
            r.healthchecks,
    {
        Config { sources: Vec::new(), transforms: Vec::new(), sinks: Vec::new(), healthchecks: true }
    }
}

/// What changes between two graphs, kind by kind.
#[derive(Debug)]
pub struct ConfigDiff {
    pub sources: Difference,
    pub transforms: Difference,
    pub sinks: Difference,
}

impl ConfigDiff {
    /// Compares an old graph with a new one.
    pub fn new(old: &Config, new: &Config) -> (r: ConfigDiff)
        ensures
            r.sources.describes(entries(old.sources@), entries(new.sources@)),
            r.transforms.describes(entries(old.transforms@), entries(new.transforms@)),
            r.sinks.describes(entries(old.sinks@), entries(new.sinks@)),
    {
        ConfigDiff {
            sources: Difference::between(&old.sources, &new.sources),
            transforms: Difference::between(&old.transforms, &new.transforms),
            sinks: Difference::between(&old.sinks, &new.sinks),
        }
    }

    /// The difference that starts `new` from nothing: every component is added.
    pub fn initial(new: &Config) -> (r: ConfigDiff)
        ensures
            r.sources.describes(Seq::empty(), entries(new.sources@)),
            r.transforms.describes(Seq::empty(), entries(new.transforms@)),
            r.sinks.describes(Seq::empty(), entries(new.sinks@)),
    {
        let empty = Config::empty();
        let r = ConfigDiff::new(&empty, new);
        assert(entries(empty.sources@) =~= Seq::empty());
        assert(entries(empty.transforms@) =~= Seq::empty());
        assert(entries(empty.sinks@) =~= Seq::empty());
        r
    }
}

proof fn lemma_has_key_step<V>(s: Seq<(Seq<char>, V)>, k: Seq<char>)
    requires
        s.len() > 0,
    ensures
        has_key(s, k) == (s.last().0 == k || has_key(s.drop_last(), k)),
{
}

proof fn lemma_has_name_step(v: Seq<String>, k: Seq<char>)
    requires
        v.len() > 0,
    ensures
        has_name(texts(v), k) == (v.last()@ == k || has_name(texts(v.drop_last()), k)),
{
    assert(texts(v).drop_last() =~= texts(v.drop_last()));
}

pub proof fn lemma_find_key_bounds<V>(s: Seq<(Seq<char>, V)>, k: Seq<char>)
    ensures
        -1 <= find_key(s, k) < s.len(),
        find_key(s, k) == -1 ==> forall|j: int| 0 <= j < s.len() ==> s[j].0 != k,
        find_key(s, k) >= 0 ==> s[find_key(s, k)].0 == k,
    decreases s.len(),
{
    if s.len() > 0 {
        lemma_find_key_bounds(s.drop_last(), k);
        if s.last().0 != k {
            assert forall|j: int| 0 <= j < s.len() - 1 implies s[j] == s.drop_last()[j] by {}
        }
    }
}

} // verus!
