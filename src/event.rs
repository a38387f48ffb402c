use vstd::prelude::*;

verus! {

/// Fixed footprint of a `FieldValue`, whatever it holds.
pub const VALUE_SIZE: usize = 32;

/// Fixed footprint of a `LogEvent`, fields excluded.
pub const LOG_EVENT_SIZE: usize = 48;

/// Fixed footprint of an `Event`, whatever variant it is.
pub const EVENT_SIZE: usize = 64;

/// A field value of a log event.
#[derive(Debug)]
pub enum FieldValue {
    Null,
    Boolean(bool),
    Integer(i64),
    Bytes(Vec<u8>),
}

/// The mathematical content of a `FieldValue`.
pub enum ValueModel {
    Null,
    Boolean(bool),
    Integer(i64),
    Bytes(Seq<u8>),
}

impl View for FieldValue {
    type V = ValueModel;

    open spec fn view(&self) -> ValueModel {
        match self {
            FieldValue::Null => ValueModel::Null,
            FieldValue::Boolean(b) => ValueModel::Boolean(*b),
            FieldValue::Integer(i) => ValueModel::Integer(*i),
            FieldValue::Bytes(b) => ValueModel::Bytes(b@),
        }
    }
}

/// Heap bytes owned by a value.
pub open spec fn value_allocated(v: ValueModel) -> nat {
    match v {
        ValueModel::Bytes(b) => b.len(),
        _ => 0,
    }
}

/// Total size of a value: its footprint plus what it owns.
pub open spec fn value_total(v: ValueModel) -> nat {
    (VALUE_SIZE + value_allocated(v)) as nat
}

/// Bytes that a text takes in UTF-8.
pub open spec fn text_size(t: Seq<char>) -> nat {
    vstd::utf8::encode_utf8(t).len()
}

/// What one field (key and value) adds to the allocated size of a log event.
pub open spec fn field_payload(f: (Seq<char>, ValueModel)) -> nat {
    text_size(f.0) + value_total(f.1)
}

/// Allocated size of a sequence of fields: the sum of their payloads.
pub open spec fn fields_allocated(s: Seq<(Seq<char>, ValueModel)>) -> nat
    decreases s.len(),
{
    if s.len() == 0 {
        0
    } else {
        fields_allocated(s.drop_last()) + field_payload(s.last())
    }
}

/// Index of the last field named `k`, or -1 when there is none.
pub open spec fn find_field(s: Seq<(Seq<char>, ValueModel)>, k: Seq<char>) -> int
    decreases s.len(),
{
    if s.len() == 0 {
        -1
    } else if s.last().0 == k {
        s.len() - 1
    } else {
        find_field(s.drop_last(), k)
    }
}

/// No two fields share a key.
pub open spec fn keys_unique(s: Seq<(Seq<char>, ValueModel)>) -> bool {
    forall|i: int, j: int| 0 <= i < s.len() && 0 <= j < s.len() && i != j ==> s[i].0 != s[j].0
}

pub proof fn lemma_find_field(s: Seq<(Seq<char>, ValueModel)>, k: Seq<char>)
    ensures
        -1 <= find_field(s, k) < s.len(),
        find_field(s, k) == -1 ==> forall|j: int| 0 <= j < s.len() ==> s[j].0 != k,
        find_field(s, k) >= 0 ==> s[find_field(s, k)].0 == k,
    decreases s.len(),
{
    if s.len() > 0 {
        lemma_find_field(s.drop_last(), k);
        if s.last().0 != k {
            assert forall|j: int| 0 <= j < s.len() - 1 implies s[j] == s.drop_last()[j] by {}
        }
    }
}

pub proof fn lemma_fields_remove(s: Seq<(Seq<char>, ValueModel)>, i: int)
    requires
        0 <= i < s.len(),
    ensures
        fields_allocated(s.remove(i)) + field_payload(s[i]) == fields_allocated(s),
    decreases s.len(),
{
    if i == s.len() - 1 {
        assert(s.remove(i) =~= s.drop_last());
    } else {
        lemma_fields_remove(s.drop_last(), i);
        assert(s.remove(i).drop_last() =~= s.drop_last().remove(i));
        assert(s.remove(i).last() == s.last());
    }
}

pub proof fn lemma_payload_bounded(s: Seq<(Seq<char>, ValueModel)>, i: int)
    requires
        0 <= i < s.len(),
    ensures
        field_payload(s[i]) <= fields_allocated(s),
{
    lemma_fields_remove(s, i);
}

/// The effect of an action on the fields of a log event.
pub open spec fn apply_action(s: Seq<(Seq<char>, ValueModel)>, a: ActionModel) -> Seq<
    (Seq<char>, ValueModel),
> {
    match a {
        ActionModel::InsertFlat(k, v) => {
            let i = find_field(s, k);
            if i >= 0 {
                s.remove(i).push((k, v))
            } else {
                s.push((k, v))
            }
        },
        ActionModel::Remove(k) => {
            let i = find_field(s, k);
            if i >= 0 {
                s.remove(i)
            } else {
                s
            }
        },
        _ => s,
    }
}

/// The change of allocated size that an action is owed to make: what it adds
/// minus what it takes away.
pub open spec fn action_delta(s: Seq<(Seq<char>, ValueModel)>, a: ActionModel) -> int {
    match a {
        ActionModel::InsertFlat(k, v) => {
            let i = find_field(s, k);
            if i >= 0 {
                value_total(v) - value_total(s[i].1)
            } else {
                (text_size(k) + value_total(v)) as int
            }
        },
        ActionModel::Remove(k) => {
            let i = find_field(s, k);
            if i >= 0 {
                0 - field_payload(s[i])
            } else {
                0
            }
        },
        _ => 0,
    }
}

/// The fields after a sequence of actions, applied in order.
pub open spec fn apply_actions(s: Seq<(Seq<char>, ValueModel)>, acts: Seq<ActionModel>) -> Seq<
    (Seq<char>, ValueModel),
>
    decreases acts.len(),
{
    if acts.len() == 0 {
        s
    } else {
        apply_action(apply_actions(s, acts.drop_last()), acts.last())
    }
}

/// The sum of the deltas of a sequence of actions, each taken in the state it
/// is applied to.
pub open spec fn deltas_sum(s: Seq<(Seq<char>, ValueModel)>, acts: Seq<ActionModel>) -> int
    decreases acts.len(),
{
    if acts.len() == 0 {
        0
    } else {
        deltas_sum(s, acts.drop_last()) + action_delta(apply_actions(s, acts.drop_last()), acts.last())
    }
}

/// One action changes the allocated size by exactly its delta.
pub proof fn lemma_action_delta(s: Seq<(Seq<char>, ValueModel)>, a: ActionModel)
    ensures
        fields_allocated(apply_action(s, a)) == fields_allocated(s) + action_delta(s, a),
{
    match a {
        ActionModel::InsertFlat(k, v) => {
            lemma_find_field(s, k);
            let i = find_field(s, k);
            if i >= 0 {
                lemma_fields_remove(s, i);
                assert(s.remove(i).push((k, v)).drop_last() =~= s.remove(i));
            } else {
                assert(s.push((k, v)).drop_last() =~= s);
            }
        },
        ActionModel::Remove(k) => {
            lemma_find_field(s, k);
            let i = find_field(s, k);
            if i >= 0 {
                lemma_fields_remove(s, i);
            }
        },
        _ => {},
    }
}

/// Size accounting by deltas: after any sequence of inserts and removals (and
/// read-only actions), the total size of a log event equals its initial total
/// size plus the sum of each action's payload delta.
pub proof fn lemma_size_follows_deltas(s: Seq<(Seq<char>, ValueModel)>, acts: Seq<ActionModel>)
    ensures
        log_total(apply_actions(s, acts)) == log_total(s) + deltas_sum(s, acts),
    decreases acts.len(),
{
    if acts.len() > 0 {
        lemma_size_follows_deltas(s, acts.drop_last());
        lemma_action_delta(apply_actions(s, acts.drop_last()), acts.last());
    }
}


/// The actions held by a vector, as models.
pub open spec fn action_models(v: Seq<Action>) -> Seq<ActionModel> {
    v.map_values(|a: Action| a@)
}

/// Total size of a log event with the given fields.
pub open spec fn log_total(s: Seq<(Seq<char>, ValueModel)>) -> nat {
    (LOG_EVENT_SIZE + fields_allocated(s)) as nat
}


/// With distinct keys, the field found under a key is the one that holds it.
pub proof fn lemma_find_unique(s: Seq<(Seq<char>, ValueModel)>, k: Seq<char>, i: int)
    requires
        keys_unique(s),
        0 <= i < s.len(),
        s[i].0 == k,
    ensures
        find_field(s, k) == i,
{
    lemma_find_field(s, k);
}

/// Applying an action keeps keys distinct.
pub proof fn lemma_apply_keeps_unique(s: Seq<(Seq<char>, ValueModel)>, a: ActionModel)
    requires
        keys_unique(s),
    ensures
        keys_unique(apply_action(s, a)),
{
    match a {
        ActionModel::InsertFlat(k, v) => {
            lemma_find_field(s, k);
            let i = find_field(s, k);
            if i >= 0 {
                let r = s.remove(i);
                assert forall|j: int| 0 <= j < r.len() implies r[j].0 != k by {
                    if j < i {
                        assert(r[j] == s[j]);
                    } else {
                        assert(r[j] == s[j + 1]);
                    }
                }
                let t = r.push((k, v));
                assert forall|x: int, y: int|
                    0 <= x < t.len() && 0 <= y < t.len() && x != y implies t[x].0 != t[y].0 by {
                    if x < r.len() && y < r.len() {
                        let xs = if x < i { x } else { x + 1 };
                        let ys = if y < i { y } else { y + 1 };
                        assert(r[x] == s[xs]);
                        assert(r[y] == s[ys]);
                    }
                }
            } else {
                let t = s.push((k, v));
                assert forall|x: int, y: int|
                    0 <= x < t.len() && 0 <= y < t.len() && x != y implies t[x].0 != t[y].0 by {
                    if x < s.len() && y < s.len() {
                        assert(t[x] == s[x]);
                        assert(t[y] == s[y]);
                    }
                }
            }
        },
        ActionModel::Remove(k) => {
            lemma_find_field(s, k);
            let i = find_field(s, k);
            if i >= 0 {
                let r = s.remove(i);
                assert forall|x: int, y: int|
                    0 <= x < r.len() && 0 <= y < r.len() && x != y implies r[x].0 != r[y].0 by {
                    let xs = if x < i { x } else { x + 1 };
                    let ys = if y < i { y } else { y + 1 };
                    assert(r[x] == s[xs]);
                    assert(r[y] == s[ys]);
                }
            }
        },
        _ => {},
    }
}

/// A log record: named fields with distinct keys. It keeps its allocated
/// size as a running count, so that asking for it costs nothing.
#[derive(Debug)]
pub struct LogEvent {
    fields: Vec<(String, FieldValue)>,
    allocated: usize,
}

impl View for LogEvent {
    type V = Seq<(Seq<char>, ValueModel)>;

    closed spec fn view(&self) -> Seq<(Seq<char>, ValueModel)> {
        self.fields@.map_values(|p: (String, FieldValue)| (p.0@, p.1@))
    }
}

impl LogEvent {
    /// Keys are distinct, the running count is exact, and the total fits in
    /// a machine word.
    pub closed spec fn wf(&self) -> bool {
        &&& keys_unique(self@)
        &&& self.allocated == fields_allocated(self@)
        &&& EVENT_SIZE + fields_allocated(self@) <= usize::MAX
    }

    /// The total size of a well-formed log event fits in a machine word.
    pub proof fn lemma_size_fits(&self)
        requires
            self.wf(),
        ensures
            EVENT_SIZE + fields_allocated(self@) <= usize::MAX,
            keys_unique(self@),
    {
    }

    /// An event with no fields.
    pub fn new() -> (r: LogEvent)
        ensures
            r.wf(),
            r@ == Seq::<(Seq<char>, ValueModel)>::empty(),
    {
        let r = LogEvent { fields: Vec::new(), allocated: 0 };
        assert(r@ =~= Seq::<(Seq<char>, ValueModel)>::empty());
        r
    }

    fn find(&self, key: &String) -> (r: Option<usize>)
        requires
            self.wf(),
        ensures
            r is None <==> find_field(self@, key@) == -1,
            r is Some ==> r->0 == find_field(self@, key@),
            r is Some ==> r->0 < self.fields.len(),
            self@.len() == self.fields.len(),
    {
        proof {
            lemma_find_field(self@, key@);
        }
        let mut i: usize = 0;
        while i < self.fields.len()
            invariant
                self.wf(),
                i <= self.fields.len(),
                self@.len() == self.fields.len(),
                forall|j: int| 0 <= j < i ==> self@[j].0 != key@,
                -1 <= find_field(self@, key@) < self@.len(),
                find_field(self@, key@) == -1 ==> forall|j: int| 0 <= j < self@.len() ==> self@[j].0 != key@,
                find_field(self@, key@) >= 0 ==> self@[find_field(self@, key@)].0 == key@,
            decreases self.fields.len() - i,
        {
            assert(self@[i as int].0 == self.fields@[i as int].0@);
            if self.fields[i].0 == *key {
                proof {
                    lemma_find_unique(self@, key@, i as int);
                }
                return Some(i);
            }
            i = i + 1;
        }
        None
    }

    /// Whether a field is stored under `key`.
    pub fn contains(&self, key: &String) -> (r: bool)
        requires
            self.wf(),
        ensures
            r == (find_field(self@, key@) >= 0),
    {
        self.find(key).is_some()
    }

    /// The value stored under `key`, if any.
    pub fn get_flat(&self, key: &String) -> (r: Option<&FieldValue>)
        requires
            self.wf(),
        ensures
            r is None <==> find_field(self@, key@) == -1,
            r is Some ==> r->0@ == self@[find_field(self@, key@)].1,
    {
        match self.find(key) {
            Some(i) => Some(&self.fields[i].1),
            None => None,
        }
    }

    /// Heap bytes owned by the fields: the sum of their keys and values.
    pub fn allocated_bytes(&self) -> (r: usize)
        requires
            self.wf(),
        ensures
            r == fields_allocated(self@),
    {
        self.allocated
    }

    /// Fixed footprint of a log event.
    pub fn structural_size() -> (r: usize)
        ensures
            r == LOG_EVENT_SIZE,
    {
        LOG_EVENT_SIZE
    }

    /// Total size: footprint plus allocated bytes.
    pub fn size_of(&self) -> (r: usize)
        requires
            self.wf(),
        ensures
            r == log_total(self@),
            r >= LOG_EVENT_SIZE,
            r > fields_allocated(self@),
            fields_allocated(self@) == 0 ==> r == LOG_EVENT_SIZE,
    {
        LOG_EVENT_SIZE + self.allocated
    }

    /// Inserts `value` under `key`, handing back the value it replaces.
    pub fn insert_flat(&mut self, key: String, value: FieldValue) -> (r: Option<FieldValue>)
        requires
            old(self).wf(),
            action_delta(old(self)@, ActionModel::InsertFlat(key@, value@)) <= 0
                || EVENT_SIZE + fields_allocated(old(self)@) + action_delta(
                old(self)@,
                ActionModel::InsertFlat(key@, value@),
            ) <= usize::MAX,
        ensures
            final(self).wf(),
            final(self)@ == apply_action(old(self)@, ActionModel::InsertFlat(key@, value@)),
            r is None <==> find_field(old(self)@, key@) == -1,
            r is Some ==> r->0@ == old(self)@[find_field(old(self)@, key@)].1,
    {
        let ghost s = self@;
        let ghost a = ActionModel::InsertFlat(key@, value@);
        proof {
            lemma_find_field(s, key@);
            lemma_action_delta(s, a);
            lemma_apply_keeps_unique(s, a);
        }
        let found = self.find(&key);
        let new_size = value.size_of();
        let key_len = key.as_str().len();
        match found {
            Some(i) => {
                let old_pair = self.fields.remove(i);
                proof {
                    lemma_fields_remove(s, i as int);
                }
                let old_size = old_pair.1.size_of();
                self.allocated = self.allocated - old_size + new_size;
                self.fields.push((key, value));
                assert(self@ =~= apply_action(s, a));
                Some(old_pair.1)
            },
            None => {
                self.allocated = self.allocated + key_len + new_size;
                self.fields.push((key, value));
                assert(self@ =~= apply_action(s, a));
                None
            },
        }
    }

    /// Removes the field under `key`, handing back its value.
    pub fn remove(&mut self, key: &String) -> (r: Option<FieldValue>)
        requires
            old(self).wf(),
        ensures
            final(self).wf(),
            final(self)@ == apply_action(old(self)@, ActionModel::Remove(key@)),
            r is None <==> find_field(old(self)@, key@) == -1,
            r is Some ==> r->0@ == old(self)@[find_field(old(self)@, key@)].1,
    {
        let ghost s = self@;
        let ghost a = ActionModel::Remove(key@);
        proof {
            lemma_find_field(s, key@);
            lemma_action_delta(s, a);
            lemma_apply_keeps_unique(s, a);
        }
        match self.find(key) {
            Some(i) => {
                let old_pair = self.fields.remove(i);
                proof {
                    lemma_fields_remove(s, i as int);
                    lemma_payload_bounded(s, i as int);
                }
                let payload = old_pair.0.as_str().len() + old_pair.1.size_of();
                self.allocated = self.allocated - payload;
                assert(self@ =~= apply_action(s, a));
                Some(old_pair.1)
            },
            None => None,
        }
    }

    /// Performs one action.
    pub fn apply(&mut self, action: Action)
        requires
            old(self).wf(),
            action_delta(old(self)@, action@) <= 0 || EVENT_SIZE + fields_allocated(old(self)@)
                + action_delta(old(self)@, action@) <= usize::MAX,
        ensures
            final(self).wf(),
            final(self)@ == apply_action(old(self)@, action@),
    {
        match action {
            Action::InsertFlat { key, value } => {
                let _ = self.insert_flat(key, value);
            },
            Action::Remove { key } => {
                let _ = self.remove(&key);
            },
            _ => {},
        }
    }

    /// Performs a sequence of actions in order. The total size then differs
    /// from the first one by the sum of the actions' deltas, each taken in the
    /// state it was applied to.
    pub fn apply_all(&mut self, actions: Vec<Action>)
        requires
            old(self).wf(),
            forall|n: int|
                0 <= n < actions.len() ==> #[trigger] action_delta(
                    apply_actions(old(self)@, action_models(actions@).take(n)),
                    action_models(actions@)[n],
                ) <= 0 || EVENT_SIZE + fields_allocated(
                    apply_actions(old(self)@, action_models(actions@).take(n)),
                ) + action_delta(
                    apply_actions(old(self)@, action_models(actions@).take(n)),
                    action_models(actions@)[n],
                ) <= usize::MAX,
        ensures
            final(self).wf(),
            final(self)@ == apply_actions(old(self)@, action_models(actions@)),
            log_total(final(self)@) == log_total(old(self)@) + deltas_sum(
                old(self)@,
                action_models(actions@),
            ),
    {
        let ghost start = self@;
        let ghost acts = action_models(actions@);
        let ghost n = acts.len();
        let mut rest = actions;
        assert(n == rest.len());
        let mut i: usize = 0;
        assert(acts.take(0) =~= Seq::<ActionModel>::empty());
        while rest.len() > 0
            invariant
                self.wf(),
                i + rest@.len() == n,
                n == acts.len(),
                n <= usize::MAX,
                action_models(rest@) == acts.subrange(i as int, n as int),
                self@ == apply_actions(start, acts.take(i as int)),
                forall|m: int|
                    0 <= m < n ==> #[trigger] action_delta(
                        apply_actions(start, acts.take(m)),
                        acts[m],
                    ) <= 0 || EVENT_SIZE + fields_allocated(apply_actions(start, acts.take(m)))
                        + action_delta(apply_actions(start, acts.take(m)), acts[m]) <= usize::MAX,
            decreases rest.len(),
        {
            let ghost before_rest = rest@;
            let ghost i0 = i as int;
            let action = rest.remove(0);
            assert(action@ == acts[i as int]) by {
                assert(action_models(before_rest)[0] == acts.subrange(i as int, n as int)[0]);
            }
            assert(action_delta(apply_actions(start, acts.take(i as int)), acts[i as int]) <= 0
                || EVENT_SIZE + fields_allocated(apply_actions(start, acts.take(i as int)))
                + action_delta(apply_actions(start, acts.take(i as int)), acts[i as int]) <= usize::MAX);
            self.apply(action);
            assert(acts.take(i + 1).drop_last() =~= acts.take(i as int));
            assert(acts.take(i + 1).last() == acts[i as int]);
            i = i + 1;
            assert forall|k: int| 0 <= k < rest@.len() implies action_models(rest@)[k]
                == acts.subrange(i as int, n as int)[k] by {
                assert(rest@[k] == before_rest[k + 1]);
                assert(action_models(before_rest)[k + 1] == acts.subrange(i0, n as int)[k + 1]);
            }
            assert(action_models(rest@) =~= acts.subrange(i as int, n as int));
        }
        assert(acts.take(n as int) =~= acts);
        proof {
            lemma_size_follows_deltas(start, acts);
        }
    }

    /// An owned copy with the same fields.
    pub fn duplicate(&self) -> (r: LogEvent)
        requires
            self.wf(),
        ensures
            r.wf(),
            r@ == self@,
    {
        let mut fields: Vec<(String, FieldValue)> = Vec::new();
        let mut i: usize = 0;
        while i < self.fields.len()
            invariant
                i <= self.fields.len(),
                fields@.len() == i,
                forall|j: int|
                    0 <= j < i ==> fields@[j].0@ == self.fields@[j].0@ && fields@[j].1@
                        == self.fields@[j].1@,
            decreases self.fields.len() - i,
        {
            let k = self.fields[i].0.clone();
            let v = self.fields[i].1.duplicate();
            fields.push((k, v));
            i = i + 1;
        }
        let r = LogEvent { fields, allocated: self.allocated };
        assert(r@ =~= self@);
        r
    }
}


/// A named counter sample.
#[derive(Debug)]
pub struct Metric {
    pub name: String,
    pub value: i64,
}

impl Metric {
    /// An owned copy with the same content.
    pub fn duplicate(&self) -> (r: Metric)
        ensures
            r.name@ == self.name@,
            r.value == self.value,
    {
        Metric { name: self.name.clone(), value: self.value }
    }
}

/// An event flowing through the topology.
#[derive(Debug)]
pub enum Event {
    Log(LogEvent),
    Metric(Metric),
}

/// The mathematical content of an `Event`.
pub enum EventModel {
    Log(Seq<(Seq<char>, ValueModel)>),
    Metric(Seq<char>, i64),
}

impl View for Event {
    type V = EventModel;

    open spec fn view(&self) -> EventModel {
        match self {
            Event::Log(l) => EventModel::Log(l@),
            Event::Metric(m) => EventModel::Metric(m.name@, m.value),
        }
    }
}

/// Heap bytes owned by an event.
pub open spec fn event_allocated(e: EventModel) -> nat {
    match e {
        EventModel::Log(fields) => fields_allocated(fields),
        EventModel::Metric(name, _) => text_size(name),
    }
}

/// Total size of an event: its fixed footprint plus what it owns.
pub open spec fn event_total(e: EventModel) -> nat {
    (EVENT_SIZE + event_allocated(e)) as nat
}

/// The footprint of an event is never more than its total size, and the total
/// size is always strictly more than what the event owns on the heap.
pub proof fn lemma_size_floor(e: EventModel)
    ensures
        event_total(e) >= EVENT_SIZE,
        event_total(e) > event_allocated(e),
{
}

/// An event that owns no heap bytes has exactly its footprint as total size.
pub proof fn lemma_size_exact_without_allocation(e: EventModel)
    requires
        event_allocated(e) == 0,
    ensures
        event_total(e) == EVENT_SIZE,
{
}

impl Event {
    /// The sizes of this event fit in a machine word, and a log event is
    /// well formed.
    pub open spec fn wf(&self) -> bool {
        match self {
            Event::Log(l) => l.wf(),
            Event::Metric(m) => EVENT_SIZE + text_size(m.name@) <= usize::MAX,
        }
    }

    /// Fixed footprint of an event, whatever it holds.
    pub fn structural_size() -> (r: usize)
        ensures
            r == EVENT_SIZE,
    {
        EVENT_SIZE
    }

    /// Heap bytes owned by this event.
    pub fn allocated_bytes(&self) -> (r: usize)
        requires
            self.wf(),
        ensures
            r == event_allocated(self@),
    {
        match self {
            Event::Log(l) => l.allocated_bytes(),
            Event::Metric(m) => m.name.as_str().len(),
        }
    }

    /// Total size: footprint plus allocated bytes.
    pub fn size_of(&self) -> (r: usize)
        requires
            self.wf(),
        ensures
            r == event_total(self@),
            r >= EVENT_SIZE,
            r > event_allocated(self@),
            event_allocated(self@) == 0 ==> r == EVENT_SIZE,
    {
        proof {
            lemma_size_floor(self@);
        }
        match self {
            Event::Log(l) => {
                assert(l.wf());
                EVENT_SIZE + l.allocated_bytes()
            },
            Event::Metric(m) => EVENT_SIZE + m.name.as_str().len(),
        }
    }

    /// An owned copy with the same content.
    pub fn duplicate(&self) -> (r: Event)
        requires
            self.wf(),
        ensures
            r.wf(),
            r@ == self@,
    {
        match self {
            Event::Log(l) => Event::Log(l.duplicate()),
            Event::Metric(m) => Event::Metric(m.duplicate()),
        }
    }
}


/// Fixed footprint of a vector of events.
pub const BATCH_SIZE: usize = 24;

/// Sum of the total sizes of a sequence of events.
pub open spec fn events_total(s: Seq<EventModel>) -> nat
    decreases s.len(),
{
    if s.len() == 0 {
        0
    } else {
        events_total(s.drop_last()) + event_total(s.last())
    }
}


/// Sum of the heap bytes of a sequence of events.
pub open spec fn events_allocated(s: Seq<EventModel>) -> nat
    decreases s.len(),
{
    if s.len() == 0 {
        0
    } else {
        events_allocated(s.drop_last()) + event_allocated(s.last())
    }
}

/// A batch of events weighs exactly one footprint per event plus everything
/// the events own: so at least one footprint per event, strictly more than
/// what they own once there is an event, and exactly the footprints when
/// they own nothing.
pub proof fn lemma_events_total(s: Seq<EventModel>)
    ensures
        events_total(s) == s.len() * EVENT_SIZE + events_allocated(s),
        events_total(s) >= s.len() * EVENT_SIZE,
        s.len() > 0 ==> events_total(s) > events_allocated(s),
        events_allocated(s) == 0 ==> events_total(s) == s.len() * EVENT_SIZE,
    decreases s.len(),
{
    if s.len() > 0 {
        lemma_events_total(s.drop_last());
        assert(s.len() * EVENT_SIZE == (s.len() - 1) * EVENT_SIZE + EVENT_SIZE) by (nonlinear_arith);
    }
}

/// Total size of a batch of events: its footprint plus every event's total size.
pub open spec fn batch_total(s: Seq<EventModel>) -> nat {
    (BATCH_SIZE + events_total(s)) as nat
}

/// The events held by a vector, as models.
pub open spec fn models(v: Seq<Event>) -> Seq<EventModel> {
    v.map_values(|e: Event| e@)
}

/// Total size of a batch of events.
pub fn batch_size_of(events: &Vec<Event>) -> (r: usize)
    requires
        forall|i: int| 0 <= i < events.len() ==> (#[trigger] events@[i]).wf(),
        batch_total(models(events@)) <= usize::MAX,
    ensures
        r == batch_total(models(events@)),
{
    let ghost s = models(events@);
    let mut total: usize = BATCH_SIZE;
    let mut i: usize = 0;
    while i < events.len()
        invariant
            i <= events.len(),
            s == models(events@),
            forall|j: int| 0 <= j < events.len() ==> (#[trigger] events@[j]).wf(),
            batch_total(s) <= usize::MAX,
            total == BATCH_SIZE + events_total(s.subrange(0, i as int)),
        decreases events.len() - i,
    {
        assert(s.subrange(0, i + 1).drop_last() =~= s.subrange(0, i as int));
        proof {
            lemma_events_total_prefix(s, i + 1);
        }
        total = total + events[i].size_of();
        i = i + 1;
    }
    assert(s.subrange(0, events.len() as int) =~= s);
    total
}

proof fn lemma_events_total_prefix(s: Seq<EventModel>, n: int)
    requires
        0 <= n <= s.len(),
    ensures
        events_total(s.subrange(0, n)) <= events_total(s),
    decreases s.len() - n,
{
    if n < s.len() {
        lemma_events_total_prefix(s, n + 1);
        assert(s.subrange(0, n + 1).drop_last() =~= s.subrange(0, n));
    } else {
        assert(s.subrange(0, n) =~= s);
    }
}

impl FieldValue {
    /// Heap bytes owned by this value.
    pub fn allocated_bytes(&self) -> (r: usize)
        ensures
            r == value_allocated(self@),
    {
        match self {
            FieldValue::Bytes(b) => b.len(),
            _ => 0,
        }
    }

    /// Total size of this value.
    pub fn size_of(&self) -> (r: usize)
        requires
            value_total(self@) <= usize::MAX,
        ensures
            r == value_total(self@),
    {
        VALUE_SIZE + self.allocated_bytes()
    }

    /// An owned copy with the same content.
    pub fn duplicate(&self) -> (r: FieldValue)
        ensures
            r@ == self@,
    {
        match self {
            FieldValue::Null => FieldValue::Null,
            FieldValue::Boolean(b) => FieldValue::Boolean(*b),
            FieldValue::Integer(i) => FieldValue::Integer(*i),
            FieldValue::Bytes(b) => FieldValue::Bytes(copy_bytes(b)),
        }
    }
}

fn copy_bytes(b: &Vec<u8>) -> (r: Vec<u8>)
    ensures
        r@ == b@,
{
    let mut r: Vec<u8> = Vec::new();
    let mut i: usize = 0;
    while i < b.len()
        invariant
            i <= b.len(),
            r@ == b@.subrange(0, i as int),
        decreases b.len() - i,
    {
        r.push(b[i]);
        i = i + 1;
        assert(r@ =~= b@.subrange(0, i as int));
    }
    assert(r@ =~= b@);
    r
}

/// An operation on a log event.
#[derive(Debug)]
pub enum Action {
    /// Ask whether a key is present.
    Contains { key: String },
    /// Ask for the total size.
    SizeOf,
    /// Insert a key/value pair, replacing any value under that key.
    InsertFlat { key: String, value: FieldValue },
    /// Remove a key and its value.
    Remove { key: String },
}

/// The mathematical content of an `Action`.
pub enum ActionModel {
    Contains(Seq<char>),
    SizeOf,
    InsertFlat(Seq<char>, ValueModel),
    Remove(Seq<char>),
}

impl View for Action {
    type V = ActionModel;

    open spec fn view(&self) -> ActionModel {
        match self {
            Action::Contains { key } => ActionModel::Contains(key@),
            Action::SizeOf => ActionModel::SizeOf,
            Action::InsertFlat { key, value } => ActionModel::InsertFlat(key@, value@),
            Action::Remove { key } => ActionModel::Remove(key@),
        }
    }
}

impl Action {
    /// Picks an action from a choice byte and the key and value it may carry.
    pub fn arbitrary(choice: u8, key: String, value: FieldValue) -> (r: Action)
        ensures
            choice % 4 == 0 ==> r@ == ActionModel::InsertFlat(key@, value@),
            choice % 4 == 1 ==> r@ == ActionModel::SizeOf,
            choice % 4 == 2 ==> r@ == ActionModel::Contains(key@),
            choice % 4 == 3 ==> r@ == ActionModel::Remove(key@),
    {
        let c: u8 = choice % 4;
        if c == 0 {
            Action::InsertFlat { key, value }
        } else if c == 1 {
            Action::SizeOf
        } else if c == 2 {
            Action::Contains { key }
        } else {
            Action::Remove { key }
        }
    }
}

} // verus!
