//! The latest process-level states, kept by name and field.
use crate::assoc::{assoc, distinct, has_key};
use crate::text::{relate, relation, text_before, Relation};
use vstd::prelude::*;

verus! {

/// What a state row is about.
#[derive(Clone, Copy, Debug, Eq, Hash, PartialEq, Structural)]
pub enum StateType {
    Rpc,
}

/// The profile type that each state type is logged under.
pub open spec fn state_label(state_type: StateType) -> Seq<char> {
    match state_type {
        StateType::Rpc => "MOTAN_CLUSTER_STAT"@,
    }
}

impl StateType {
    /// The profile type that a state of this type is logged under.
    pub fn profile_type(self) -> (label: &'static str)
        ensures
            label@ == state_label(self),
    {
        match self {
            StateType::Rpc => "MOTAN_CLUSTER_STAT",
        }
    }
}

/// The fields of one named state, sorted by field name.
#[derive(Debug)]
pub struct StateSnapshot {
    pub state_type: StateType,
    pub name: String,
    pub fields: Vec<(String, String)>,
}

/// What a [`StateSnapshot`] holds, with its texts as character sequences.
#[verifier::ext_equal]
pub struct StateView {
    pub state_type: StateType,
    pub name: Seq<char>,
    pub fields: Seq<(Seq<char>, Seq<char>)>,
}

/// The texts of a sequence of fields.
pub open spec fn field_views(fields: Seq<(String, String)>) -> Seq<(Seq<char>, Seq<char>)> {
    Seq::new(fields.len(), |i: int| (fields[i].0@, fields[i].1@))
}

impl View for StateSnapshot {
    type V = StateView;

    open spec fn view(&self) -> StateView {
        StateView {
            state_type: self.state_type,
            name: self.name@,
            fields: field_views(self.fields@),
        }
    }
}

/// All states: the fields of each, by the type and the name of the state.
pub type StateMap = Map<(StateType, Seq<char>), Map<Seq<char>, Seq<char>>>;

/// Fields stand in the order of their names, each name once.
pub open spec fn fields_sorted(fields: Seq<(Seq<char>, Seq<char>)>) -> bool {
    forall|i: int, j: int|
        0 <= i < j < fields.len() ==> text_before(#[trigger] fields[i].0, #[trigger] fields[j].0)
}

/// The order of states: by profile type, then by name.
pub open spec fn state_before(
    a_type: StateType,
    a_name: Seq<char>,
    b_type: StateType,
    b_name: Seq<char>,
) -> bool {
    ||| text_before(state_label(a_type), state_label(b_type))
    ||| state_label(a_type) == state_label(b_type) && text_before(a_name, b_name)
}

/// States stand in order, each state once, and so do the fields of each.
pub open spec fn states_sorted(states: Seq<StateView>) -> bool {
    &&& forall|i: int, j: int|
        0 <= i < j < states.len() ==> state_before(
            (#[trigger] states[i]).state_type,
            states[i].name,
            (#[trigger] states[j]).state_type,
            states[j].name,
        )
    &&& forall|i: int| 0 <= i < states.len() ==> fields_sorted(#[trigger] states[i].fields)
}

/// Each state of a sequence as a map entry.
pub open spec fn state_pairs(states: Seq<StateView>) -> Seq<
    ((StateType, Seq<char>), Map<Seq<char>, Seq<char>>),
> {
    Seq::new(
        states.len(),
        |i: int| ((states[i].state_type, states[i].name), assoc(states[i].fields)),
    )
}

/// The map that a sequence of states stands for.
pub open spec fn states_map(states: Seq<StateView>) -> StateMap {
    assoc(state_pairs(states))
}

/// All states after one field of one state got a value.
pub open spec fn state_recorded(
    states: StateMap,
    state_type: StateType,
    name: Seq<char>,
    key: Seq<char>,
    value: Seq<char>,
) -> StateMap {
    let fields = if states.contains_key((state_type, name)) {
        states[(state_type, name)]
    } else {
        Map::empty()
    };
    states.insert((state_type, name), fields.insert(key, value))
}

/// The views of a sequence of snapshots.
pub open spec fn state_views(states: Seq<StateSnapshot>) -> Seq<StateView> {
    Seq::new(states.len(), |i: int| states[i]@)
}

/// The latest value of every recorded field of every state.
pub struct StateRegistry {
    states: Vec<StateSnapshot>,
}

impl View for StateRegistry {
    type V = StateMap;

    closed spec fn view(&self) -> StateMap {
        states_map(state_views(self.states@))
    }
}

/// No field of a sorted list is there twice.
pub proof fn lemma_fields_distinct(fields: Seq<(Seq<char>, Seq<char>)>)
    requires
        fields_sorted(fields),
    ensures
        distinct(fields),
{
    assert forall|i: int, j: int|
        0 <= i < fields.len() && 0 <= j < fields.len() && i != j implies #[trigger] fields[i].0
        != #[trigger] fields[j].0 by {
        crate::text::law_text_order_is_strict_and_total(
            fields[i].0,
            fields[i].0,
            fields[i].0,
        );
        if i < j {
            assert(text_before(fields[i].0, fields[j].0));
        } else {
            assert(text_before(fields[j].0, fields[i].0));
        }
    }
}

/// No state of a sorted list is there twice.
pub proof fn lemma_states_distinct(states: Seq<StateView>)
    requires
        states_sorted(states),
    ensures
        distinct(state_pairs(states)),
{
    let pairs = state_pairs(states);
    assert forall|i: int, j: int|
        0 <= i < pairs.len() && 0 <= j < pairs.len() && i != j implies #[trigger] pairs[i].0
        != #[trigger] pairs[j].0 by {
        let (a, b) = if i < j {
            (i, j)
        } else {
            (j, i)
        };
        assert(state_before(
            states[a].state_type,
            states[a].name,
            states[b].state_type,
            states[b].name,
        ));
        crate::text::law_text_order_is_strict_and_total(
            state_label(states[a].state_type),
            states[a].name,
            states[b].name,
        );
        crate::text::law_text_order_is_strict_and_total(
            states[a].name,
            states[a].name,
            states[b].name,
        );
    }
}

/// Gives a field its value, keeping the fields sorted.
fn put_field(fields: &mut Vec<(String, String)>, key: &str, value: &str)
    requires
        fields_sorted(field_views(old(fields)@)),
    ensures
        fields_sorted(field_views(final(fields)@)),
        assoc(field_views(final(fields)@)) == assoc(field_views(old(fields)@)).insert(
            key@,
            value@,
        ),
{
    let ghost before = field_views(fields@);
    proof {
        lemma_fields_distinct(before);
    }
    let mut i: usize = 0;
    while i < fields.len()
        invariant
            i <= fields@.len(),
            fields@ == old(fields)@,
            before == field_views(fields@),
            fields_sorted(before),
            distinct(before),
            forall|j: int| 0 <= j < i ==> text_before(#[trigger] before[j].0, key@),
        ensures
            i < before.len() ==> relation(before[i as int].0, key@) == Relation::After,
        decreases fields@.len() - i,
    {
        match relate(fields[i].0.as_str(), key) {
            Relation::Before => {
                proof {
                    crate::text::law_text_order_is_strict_and_total(before[i as int].0, key@, key@);
                }
                i += 1;
            },
            Relation::Same => {
                if !crate::text::same_text(fields[i].1.as_str(), value) {
                    fields[i].1 = value.to_string();
                }
                proof {
                    crate::assoc::lemma_assoc_update(before, i as int, value@);
                    assert(field_views(fields@) =~= before.update(
                        i as int,
                        (before[i as int].0, value@),
                    ));
                }
                return ;
            },
            Relation::After => {
                break ;
            },
        }
    }
    proof {
        assert forall|j: int| i <= j < before.len() implies text_before(
            key@,
            #[trigger] before[j].0,
        ) by {
            crate::text::law_text_order_is_strict_and_total(before[i as int].0, key@, key@);
            if i < j {
                crate::text::law_text_order_is_strict_and_total(
                    key@,
                    before[i as int].0,
                    before[j].0,
                );
            }
        }
        assert(!has_key(before, key@)) by {
            crate::text::law_text_order_is_strict_and_total(key@, key@, key@);
        }
        crate::assoc::lemma_assoc_insert(before, i as int, key@, value@);
    }
    fields.insert(i, (key.to_string(), value.to_string()));
    assert(field_views(fields@) =~= before.insert(i as int, (key@, value@)));
}

impl StateRegistry {
    /// The states are sorted, with no state and no field twice.
    pub closed spec fn wf(&self) -> bool {
        states_sorted(state_views(self.states@))
    }

    /// A registry without states.
    pub fn new() -> (registry: StateRegistry)
        ensures
            registry.wf(),
            registry@ == Map::<(StateType, Seq<char>), Map<Seq<char>, Seq<char>>>::empty(),
    {
        let registry = StateRegistry { states: Vec::new() };
        assert(registry@ =~= Map::empty());
        registry
    }

    /// Records the latest value of one field of one state.
    pub fn record(&mut self, state_type: StateType, name: &str, key: &str, value: &str)
        requires
            old(self).wf(),
        ensures
            final(self).wf(),
            final(self)@ == state_recorded(old(self)@, state_type, name@, key@, value@),
    {
        let ghost before = state_views(self.states@);
        let ghost pairs = state_pairs(before);
        proof {
            lemma_states_distinct(before);
        }
        let mut i: usize = 0;
        while i < self.states.len()
            invariant
                i <= self.states@.len(),
                *self == *old(self),
                before == state_views(self.states@),
                pairs == state_pairs(before),
                states_sorted(before),
                distinct(pairs),
                forall|j: int|
                    0 <= j < i ==> state_before(
                        (#[trigger] before[j]).state_type,
                        before[j].name,
                        state_type,
                        name@,
                    ),
            ensures
                i < before.len() ==> state_before(
                    state_type,
                    name@,
                    before[i as int].state_type,
                    before[i as int].name,
                ),
            decreases self.states@.len() - i,
        {
            match relate_states(
                self.states[i].state_type,
                self.states[i].name.as_str(),
                state_type,
                name,
            ) {
                Relation::Before => {
                    i += 1;
                },
                Relation::Same => {
                    assert(fields_sorted(before[i as int].fields));
                    put_field(&mut self.states[i].fields, key, value);
                    proof {
                        let after = state_views(self.states@);
                        let fields = assoc(after[i as int].fields);
                        crate::assoc::lemma_assoc_entry(pairs, i as int);
                        crate::assoc::lemma_assoc_update(pairs, i as int, fields);
                        assert(state_pairs(after) =~= pairs.update(
                            i as int,
                            (pairs[i as int].0, fields),
                        ));
                        assert forall|j: int| 0 <= j < after.len() && j != i implies after[j]
                            == before[j] by {}
                    }
                    return ;
                },
                Relation::After => {
                    break ;
                },
            }
        }
        proof {
            assert forall|j: int| i <= j < before.len() implies state_before(
                state_type,
                name@,
                (#[trigger] before[j]).state_type,
                before[j].name,
            ) by {
                if i < j {
                    lemma_state_order(
                        (state_type, name@),
                        (before[i as int].state_type, before[i as int].name),
                        (before[j].state_type, before[j].name),
                    );
                }
            }
            lemma_state_order((state_type, name@), (state_type, name@), (state_type, name@));
            assert(!has_key(pairs, (state_type, name@)));
        }
        let mut fields: Vec<(String, String)> = Vec::new();
        fields.push((key.to_string(), value.to_string()));
        let ghost added = assoc(field_views(fields@));
        proof {
            let none = Seq::<(Seq<char>, Seq<char>)>::empty();
            crate::assoc::lemma_assoc_insert(none, 0, key@, value@);
            assert(field_views(fields@) =~= none.insert(0, (key@, value@)));
            assert(assoc(none) =~= Map::empty());
            crate::assoc::lemma_assoc_insert(pairs, i as int, (state_type, name@), added);
        }
        self.states.insert(i, StateSnapshot { state_type, name: name.to_string(), fields });
        proof {
            let after = state_views(self.states@);
            assert(state_pairs(after) =~= pairs.insert(i as int, ((state_type, name@), added)));
            assert forall|a: int, b: int| 0 <= a < b < after.len() implies state_before(
                (#[trigger] after[a]).state_type,
                after[a].name,
                (#[trigger] after[b]).state_type,
                after[b].name,
            ) by {
                if a < i {
                    assert(after[a] == before[a]);
                }
                if a > i {
                    assert(after[a] == before[a - 1]);
                }
                if b < i {
                    assert(after[b] == before[b]);
                }
                if b > i {
                    assert(after[b] == before[b - 1]);
                }
            }
            assert forall|a: int| 0 <= a < after.len() implies fields_sorted(
                #[trigger] after[a].fields,
            ) by {
                if a < i {
                    assert(after[a] == before[a]);
                }
                if a > i {
                    assert(after[a] == before[a - 1]);
                }
            }
        }
    }

    /// Copies out all states, sorted by profile type and name, with the fields of each sorted by
    /// name. The states stay as they are.
    pub fn snapshot(&self) -> (snapshots: Vec<StateSnapshot>)
        requires
            self.wf(),
        ensures
            states_sorted(state_views(snapshots@)),
            states_map(state_views(snapshots@)) == self@,
    {
        let mut snapshots: Vec<StateSnapshot> = Vec::new();
        let mut i: usize = 0;
        while i < self.states.len()
            invariant
                i <= self.states@.len(),
                snapshots@.len() == i,
                forall|j: int| 0 <= j < i ==> (#[trigger] snapshots@[j])@ == self.states@[j]@,
            decreases self.states@.len() - i,
        {
            let state = &self.states[i];
            let mut fields: Vec<(String, String)> = Vec::new();
            let mut k: usize = 0;
            while k < state.fields.len()
                invariant
                    k <= state.fields@.len(),
                    fields@.len() == k,
                    forall|j: int|
                        0 <= j < k ==> (#[trigger] fields@[j]).0@ == state.fields@[j].0@
                            && fields@[j].1@ == state.fields@[j].1@,
                decreases state.fields@.len() - k,
            {
                fields.push((state.fields[k].0.clone(), state.fields[k].1.clone()));
                k += 1;
            }
            assert(field_views(fields@) =~= field_views(state.fields@));
            snapshots.push(
                StateSnapshot { state_type: state.state_type, name: state.name.clone(), fields },
            );
            i += 1;
        }
        assert(state_views(snapshots@) =~= state_views(self.states@));
        snapshots
    }
}

/// The order of states is a strict total order.
pub proof fn lemma_state_order(
    a: (StateType, Seq<char>),
    b: (StateType, Seq<char>),
    c: (StateType, Seq<char>),
)
    ensures
        !state_before(a.0, a.1, a.0, a.1),
        state_before(a.0, a.1, b.0, b.1) && state_before(b.0, b.1, c.0, c.1) ==> state_before(
            a.0,
            a.1,
            c.0,
            c.1,
        ),
        a == b || state_before(a.0, a.1, b.0, b.1) || state_before(b.0, b.1, a.0, a.1),
{
    crate::text::law_text_order_is_strict_and_total(a.1, b.1, c.1);
    crate::text::law_text_order_is_strict_and_total(
        state_label(a.0),
        state_label(b.0),
        state_label(c.0),
    );
}

/// Tells how one state stands to another in the order of states.
fn relate_states(a_type: StateType, a_name: &str, b_type: StateType, b_name: &str) -> (r: Relation)
    ensures
        match r {
            Relation::Before => state_before(a_type, a_name@, b_type, b_name@),
            Relation::Same => a_type == b_type && a_name@ == b_name@,
            Relation::After => state_before(b_type, b_name@, a_type, a_name@),
        },
{
    proof {
        crate::text::law_text_order_is_strict_and_total(
            state_label(a_type),
            state_label(b_type),
            state_label(b_type),
        );
        crate::text::law_text_order_is_strict_and_total(a_name@, b_name@, b_name@);
    }
    match relate(a_type.profile_type(), b_type.profile_type()) {
        Relation::Before => Relation::Before,
        Relation::After => Relation::After,
        Relation::Same => relate(a_name, b_name),
    }
}

} // verus!
