//! How far the client has seen the state of the name service, and of each namespace behind a
//! router.

use vstd::prelude::*;
use vstd::utf8::encode_utf8;
use crate::error::HdfsError;
use crate::fields::{
    integer, lemma_read_bytes_field, lemma_read_optional_integer, lemma_read_optional_string,
    optional_field, read_fields, signed, text, Field, FieldValue,
};
use crate::integers::{signed64, to_signed64, to_unsigned64, unsigned64};
use crate::message::{
    decode, decode_length_delimited, decoded, decoded_delimited, lemma_any_first, lemma_bytes_first,
    lemma_integer_first, lemma_string_first, lemma_with_fields_step, pass_nested_field, passes_over,
    refuses_bytes, refuses_integer, skip_nested_field, with_fields, Message,
};
use crate::text::str_eq;
use crate::wire::{
    bytes_field, delimited, get_integer, get_string, integer_field, lemma_bytes_field_round_trip,
    lemma_integer_field_round_trip, lemma_read_varint_shrinks, lemma_string_field_round_trip,
    optional_bytes, optional_integer_field, optional_string_field, pass_field, put_bytes_field,
    put_integer_field, put_string_field, read_integer, read_string, skip_field, string_field,
    varint, LENGTH_DELIMITED, VARINT,
};

verus! {

/// One entry of the map from namespaces to state ids, as a message.
pub struct StateEntry {
    pub namespace: String,
    pub state_id: i64,
}

impl View for StateEntry {
    type V = (Seq<char>, i64);

    open spec fn view(&self) -> (Seq<char>, i64) {
        (self.namespace@, self.state_id)
    }
}

impl Message for StateEntry {
    open spec fn blank() -> (Seq<char>, i64) {
        (Seq::empty(), 0)
    }

    open spec fn with_field(m: (Seq<char>, i64), tag: u32, wire: u8, s: Seq<u8>) -> Option<
        ((Seq<char>, i64), Seq<u8>),
    > {
        if tag == 1 {
            match read_string(wire, s) {
                Some((namespace, rest)) => Some(((namespace, m.1), rest)),
                None => None,
            }
        } else if tag == 2 {
            match read_integer(wire, s) {
                Some((v, rest)) => Some(((m.0, signed64(v)), rest)),
                None => None,
            }
        } else {
            match skip_nested_field(1, tag, wire, s) {
                Some(rest) => Some((m, rest)),
                None => None,
            }
        }
    }

    fn new_blank() -> (m: StateEntry) {
        StateEntry { namespace: String::new(), state_id: 0 }
    }

    fn merge_field<'a>(&mut self, tag: u32, wire: u8, buf: &'a [u8]) -> (r: Result<
        &'a [u8],
        HdfsError,
    >) {
        proof {
            lemma_read_varint_shrinks(buf@);
        }
        if tag == 1 {
            let (namespace, rest) = get_string(wire, buf)?;
            self.namespace = namespace;
            Ok(rest)
        } else if tag == 2 {
            let (v, rest) = get_integer(wire, buf)?;
            self.state_id = to_signed64(v);
            Ok(rest)
        } else {
            pass_nested_field(1, tag, wire, buf)
        }
    }
}

/// No namespace occurs twice.
pub open spec fn distinct(pairs: Seq<(Seq<char>, i64)>) -> bool {
    forall|i: int, j: int|
        #![trigger pairs[i], pairs[j]]
        0 <= i < j < pairs.len() ==> pairs[i].0 != pairs[j].0
}

/// The map that holds the given pairs, later ones over earlier ones.
pub open spec fn map_of(pairs: Seq<(Seq<char>, i64)>) -> Map<Seq<char>, i64>
    decreases pairs.len(),
{
    if pairs.len() == 0 {
        Map::empty()
    } else {
        map_of(pairs.drop_last()).insert(pairs.last().0, pairs.last().1)
    }
}

proof fn lemma_map_of(pairs: Seq<(Seq<char>, i64)>)
    requires
        distinct(pairs),
    ensures
        forall|k: Seq<char>|
            #![trigger map_of(pairs).contains_key(k)]
            map_of(pairs).contains_key(k) <==> exists|i: int|
                0 <= i < pairs.len() && #[trigger] pairs[i].0 == k,
        forall|i: int|
            0 <= i < pairs.len() ==> map_of(pairs).contains_key(#[trigger] pairs[i].0) && map_of(
                pairs,
            )[pairs[i].0] == pairs[i].1,
        map_of(pairs).dom().finite(),
        map_of(pairs).len() == pairs.len(),
    decreases pairs.len(),
{
    if pairs.len() > 0 {
        let front = pairs.drop_last();
        assert forall|i: int, j: int|
            #![trigger front[i], front[j]]
            0 <= i < j < front.len() implies front[i].0 != front[j].0 by {
            assert(front[i] == pairs[i] && front[j] == pairs[j]);
        }
        lemma_map_of(front);
        assert forall|k: Seq<char>|
            #![trigger map_of(pairs).contains_key(k)]
            map_of(pairs).contains_key(k) <==> exists|i: int|
                0 <= i < pairs.len() && #[trigger] pairs[i].0 == k by {
            if map_of(front).contains_key(k) {
                let i = choose|i: int| 0 <= i < front.len() && #[trigger] front[i].0 == k;
                assert(pairs[i].0 == k);
            }
            if exists|i: int| 0 <= i < pairs.len() && #[trigger] pairs[i].0 == k {
                let i = choose|i: int| 0 <= i < pairs.len() && #[trigger] pairs[i].0 == k;
                if i < front.len() {
                    assert(front[i].0 == k);
                }
            }
        }
        assert forall|i: int| 0 <= i < pairs.len() implies map_of(pairs).contains_key(
            #[trigger] pairs[i].0,
        ) && map_of(pairs)[pairs[i].0] == pairs[i].1 by {
            if i < front.len() {
                assert(front[i] == pairs[i]);
                assert(pairs[i].0 != pairs[pairs.len() - 1].0);
            }
        }
        assert(!map_of(front).contains_key(pairs.last().0)) by {
            if map_of(front).contains_key(pairs.last().0) {
                let i = choose|i: int|
                    0 <= i < front.len() && #[trigger] front[i].0 == pairs.last().0;
                assert(pairs[i].0 != pairs[pairs.len() - 1].0);
            }
        }
    }
}

/// The last state id seen of each namespace.
#[derive(Debug)]
pub struct NamespaceStates {
    entries: Vec<(String, i64)>,
}

impl View for NamespaceStates {
    type V = Map<Seq<char>, i64>;

    open spec fn view(&self) -> Map<Seq<char>, i64> {
        map_of(self.pairs())
    }
}

impl NamespaceStates {
    /// The namespaces with their state ids, in the order in which they were first seen.
    pub closed spec fn pairs(&self) -> Seq<(Seq<char>, i64)> {
        pairs_of(self.entries@)
    }

    /// No namespace occurs twice.
    #[verifier::type_invariant]
    pub closed spec fn valid(&self) -> bool {
        distinct(self.pairs())
    }

    /// No namespace at all.
    pub fn new() -> (r: NamespaceStates)
        ensures
            r@ == Map::<Seq<char>, i64>::empty(),
            r.pairs() == Seq::<(Seq<char>, i64)>::empty(),
            r.valid(),
    {
        let r = NamespaceStates { entries: Vec::new() };
        assert(r.pairs() =~= Seq::<(Seq<char>, i64)>::empty());
        r
    }

    /// The number of namespaces.
    pub fn len(&self) -> (n: usize)
        ensures
            n == self@.len(),
            n == self.pairs().len(),
    {
        proof {
            use_type_invariant(self);
            lemma_map_of(self.pairs());
        }
        self.entries.len()
    }

    /// The position of a namespace.
    fn find(&self, namespace: &str) -> (r: Option<usize>)
        ensures
            match r {
                Some(i) => i < self.pairs().len() && self.pairs()[i as int].0 == namespace@,
                None => forall|i: int|
                    0 <= i < self.pairs().len() ==> #[trigger] self.pairs()[i].0 != namespace@,
            },
    {
        let mut i: usize = 0;
        while i < self.entries.len()
            invariant
                i <= self.entries@.len(),
                forall|j: int| 0 <= j < i ==> #[trigger] self.pairs()[j].0 != namespace@,
            decreases self.entries@.len() - i,
        {
            if str_eq(self.entries[i].0.as_str(), namespace) {
                return Some(i);
            }
            i += 1;
        }
        None
    }

    /// The state id of a namespace.
    pub fn get(&self, namespace: &str) -> (r: Option<i64>)
        ensures
            r == (if self@.contains_key(namespace@) {
                Some(self@[namespace@])
            } else {
                None
            }),
    {
        proof {
            use_type_invariant(self);
            lemma_map_of(self.pairs());
        }
        match self.find(namespace) {
            Some(i) => {
                assert(self.pairs()[i as int].1 == self.entries@[i as int].1);
                Some(self.entries[i].1)
            },
            None => None,
        }
    }

    /// Sets the state id of a namespace.
    pub fn insert(&mut self, namespace: String, state_id: i64)
        ensures
            final(self)@ == old(self)@.insert(namespace@, state_id),
            final(self).valid(),
    {
        proof {
            use_type_invariant(&*self);
        }
        let found = self.find(namespace.as_str());
        let mut entries: Vec<(String, i64)> = Vec::new();
        let ghost before = self.pairs();
        std::mem::swap(&mut entries, &mut self.entries);
        match found {
            Some(i) => {
                entries[i] = (namespace, state_id);
                proof {
                    let after = pairs_of(entries@);
                    assert(after =~= before.update(i as int, (namespace@, state_id)));
                    assert(distinct(after));
                    lemma_map_of(before);
                    lemma_map_of(after);
                    assert forall|k: Seq<char>|
                        #![trigger map_of(after).contains_key(k)]
                        map_of(after).contains_key(k) <==> map_of(before).contains_key(k) by {
                        if map_of(after).contains_key(k) {
                            let j = choose|j: int|
                                0 <= j < after.len() && #[trigger] after[j].0 == k;
                            assert(before[j].0 == k);
                        }
                        if map_of(before).contains_key(k) {
                            let j = choose|j: int|
                                0 <= j < before.len() && #[trigger] before[j].0 == k;
                            assert(after[j].0 == k);
                        }
                    }
                    assert forall|k: Seq<char>|
                        #![trigger map_of(after)[k]]
                        map_of(after).contains_key(k) implies map_of(after)[k] == map_of(
                        before,
                    ).insert(namespace@, state_id)[k] by {
                        let j = choose|j: int| 0 <= j < after.len() && #[trigger] after[j].0 == k;
                        assert(before[j].0 == k);
                    }
                    assert(map_of(before).contains_key(before[i as int].0));
                    assert(map_of(after) =~= map_of(before).insert(namespace@, state_id));
                }
            },
            None => {
                entries.push((namespace, state_id));
                proof {
                    let after = pairs_of(entries@);
                    assert(after =~= before.push((namespace@, state_id)));
                    assert(after.drop_last() =~= before);
                    assert(distinct(after));
                }
            },
        }
        self.entries = entries;
    }
}

/// The contents of the pairs.
spec fn pairs_of(entries: Seq<(String, i64)>) -> Seq<(Seq<char>, i64)> {
    entries.map_values(|e: (String, i64)| (e.0@, e.1))
}

impl Message for NamespaceStates {
    open spec fn blank() -> Map<Seq<char>, i64> {
        Map::empty()
    }

    /// Field 1 is an entry, whatever wire type its key gives; an entry replaces an earlier one
    /// for the same namespace.
    open spec fn with_field(m: Map<Seq<char>, i64>, tag: u32, wire: u8, s: Seq<u8>) -> Option<
        (Map<Seq<char>, i64>, Seq<u8>),
    > {
        if tag == 1 {
            match decoded_delimited::<StateEntry>(s) {
                Some((entry, rest)) => Some((m.insert(entry.0, entry.1), rest)),
                None => None,
            }
        } else {
            match skip_field(tag, wire, s) {
                Some(rest) => Some((m, rest)),
                None => None,
            }
        }
    }

    fn new_blank() -> (m: NamespaceStates) {
        NamespaceStates::new()
    }

    fn merge_field<'a>(&mut self, tag: u32, wire: u8, buf: &'a [u8]) -> (r: Result<
        &'a [u8],
        HdfsError,
    >) {
        if tag == 1 {
            let (entry, rest) = decode_length_delimited::<StateEntry>(buf)?;
            self.insert(entry.namespace, entry.state_id);
            Ok(rest)
        } else {
            pass_field(tag, wire, buf)
        }
    }
}

/// The fields of an entry. The empty name and the state id 0 are left out.
pub open spec fn entry_body(namespace: Seq<char>, state_id: i64) -> Seq<u8> {
    (if namespace.len() == 0 {
        Seq::empty()
    } else {
        string_field(1, namespace)
    }) + (if state_id == 0 {
        Seq::empty()
    } else {
        integer_field(2, unsigned64(state_id))
    })
}

/// The message of the given entries.
pub open spec fn encoded_states(pairs: Seq<(Seq<char>, i64)>) -> Seq<u8>
    decreases pairs.len(),
{
    if pairs.len() == 0 {
        Seq::empty()
    } else {
        bytes_field(1, entry_body(pairs[0].0, pairs[0].1)) + encoded_states(pairs.skip(1))
    }
}

impl NamespaceStates {
    /// The message of all entries.
    pub fn encode_to_vec(&self) -> (r: Vec<u8>)
        ensures
            r@ == encoded_states(self.pairs()),
    {
        let mut r: Vec<u8> = Vec::new();
        let mut i: usize = 0;
        assert(self.pairs().skip(0) =~= self.pairs());
        assert(r@ + encoded_states(self.pairs()) =~= encoded_states(self.pairs()));
        while i < self.entries.len()
            invariant
                i <= self.entries@.len(),
                r@ + encoded_states(self.pairs().skip(i as int)) == encoded_states(self.pairs()),
            decreases self.entries@.len() - i,
        {
            let ghost before = r@;
            let ghost left = self.pairs().skip(i as int);
            let namespace = self.entries[i].0.as_str();
            let state_id: i64 = self.entries[i].1;
            let mut body: Vec<u8> = Vec::new();
            if !namespace.is_empty() {
                put_string_field(&mut body, 1, namespace);
            }
            let ghost first = body@;
            if state_id != 0 {
                put_integer_field(&mut body, 2, to_unsigned64(state_id));
            }
            proof {
                assert(left[0] == (namespace@, state_id));
                assert(left.skip(1) =~= self.pairs().skip(i + 1));
                assert(first =~= if namespace@.len() == 0 {
                    Seq::empty()
                } else {
                    string_field(1, namespace@)
                });
                assert(body@ =~= entry_body(namespace@, state_id));
            }
            put_bytes_field(&mut r, 1, body.as_slice());
            assert(r@ + encoded_states(left.skip(1)) =~= before + encoded_states(left));
            i += 1;
        }
        assert(r@ + encoded_states(self.pairs().skip(i as int)) =~= r@);
        r
    }
}

/// The state ids after those of `new` came in: of each namespace the larger one.
pub open spec fn merged_states(current: Map<Seq<char>, i64>, new: Map<Seq<char>, i64>) -> Map<
    Seq<char>,
    i64,
> {
    Map::new(
        |k: Seq<char>| current.contains_key(k) || new.contains_key(k),
        |k: Seq<char>|
            if !current.contains_key(k) {
                new[k]
            } else if !new.contains_key(k) || current[k] >= new[k] {
                current[k]
            } else {
                new[k]
            },
    )
}

/// How far the client has seen the state of the name service.
#[derive(Debug)]
pub struct AlignmentContext {
    pub state_id: i64,
    pub router_federated_state: Option<NamespaceStates>,
}

/// The state ids of the namespaces; none where none were ever received.
pub open spec fn states_or_empty(states: Option<NamespaceStates>) -> Map<Seq<char>, i64> {
    match states {
        Some(states) => states@,
        None => Map::empty(),
    }
}

/// Whether what a response says of the namespaces can be read.
pub open spec fn is_states_message(router_federated_state: Option<Seq<u8>>) -> bool {
    match router_federated_state {
        Some(bytes) => decoded::<NamespaceStates>(bytes) is Some,
        None => true,
    }
}

/// `after` is `before` after a response: it has the state id of the response, if it came with
/// one, and of each namespace the larger state id, if it came with a message of those.
pub open spec fn updated(
    before: AlignmentContext,
    after: AlignmentContext,
    state_id: Option<i64>,
    router_federated_state: Option<Seq<u8>>,
) -> bool {
    &&& after.state_id == match state_id {
        Some(new_state_id) => new_state_id,
        None => before.state_id,
    }
    &&& if router_federated_state is Some && is_states_message(router_federated_state) {
        &&& after.router_federated_state is Some
        &&& states_or_empty(after.router_federated_state) == merged_states(
            states_or_empty(before.router_federated_state),
            decoded::<NamespaceStates>(router_federated_state.unwrap()).unwrap(),
        )
    } else {
        after.router_federated_state == before.router_federated_state
    }
}

/// The message of the state ids of the namespaces, if any were ever received.
pub open spec fn router_state_message(context: AlignmentContext) -> Option<Seq<u8>> {
    match context.router_federated_state {
        Some(states) => Some(encoded_states(states.pairs())),
        None => None,
    }
}

impl AlignmentContext {
    /// Takes over what a response says: the state id as it is, of each namespace the larger
    /// state id. Bytes that are no message of namespace states are an error, which leaves the
    /// namespaces as they were but not the state id.
    pub fn update(
        &mut self,
        state_id: Option<i64>,
        router_federated_state: Option<Vec<u8>>,
    ) -> (r: Result<(), HdfsError>)
        ensures
            updated(*old(self), *final(self), state_id, optional_bytes(router_federated_state)),
            is_states_message(optional_bytes(router_federated_state)) ==> r is Ok,
            !is_states_message(optional_bytes(router_federated_state)) ==> r matches Err(
                HdfsError::InvalidRPCResponse,
            ),
    {
        if let Some(new_state_id) = state_id {
            self.state_id = new_state_id;
        }
        if let Some(bytes) = router_federated_state {
            let new = decode::<NamespaceStates>(bytes.as_slice())?;
            self.merge_states(&new);
        }
        Ok(())
    }

    /// Takes over the state ids of the namespaces that are larger than those known.
    pub fn merge_states(&mut self, new: &NamespaceStates)
        ensures
            final(self).state_id == old(self).state_id,
            final(self).router_federated_state is Some,
            states_or_empty(final(self).router_federated_state) == merged_states(
                states_or_empty(old(self).router_federated_state),
                new@,
            ),
    {
        let ghost before = states_or_empty(self.router_federated_state);
        let mut current = match self.router_federated_state.take() {
            Some(current) => current,
            None => NamespaceStates::new(),
        };
        let mut i: usize = 0;
        proof {
            use_type_invariant(new);
            lemma_map_of(new.pairs());
            assert(new.pairs().take(0) =~= Seq::<(Seq<char>, i64)>::empty());
            assert(current@ =~= merged_states(before, map_of(new.pairs().take(0))));
        }
        while i < new.entries.len()
            invariant
                i <= new.entries@.len(),
                distinct(new.pairs()),
                current@ == merged_states(before, map_of(new.pairs().take(i as int))),
            decreases new.entries@.len() - i,
        {
            let ghost seen = new.pairs().take(i as int);
            let ghost next = new.pairs().take(i + 1);
            let namespace = new.entries[i].0.clone();
            let state_id: i64 = new.entries[i].1;
            let known = current.get(namespace.as_str());
            let larger: i64 = match known {
                Some(known) => if known >= state_id { known } else { state_id },
                None => state_id,
            };
            proof {
                assert(next.drop_last() =~= seen);
                assert(next.last() == (namespace@, state_id));
                assert(distinct(seen)) by {
                    assert forall|a: int, b: int|
                        #![trigger seen[a], seen[b]]
                        0 <= a < b < seen.len() implies seen[a].0 != seen[b].0 by {
                        assert(new.pairs()[a].0 != new.pairs()[b].0);
                    }
                }
                lemma_map_of(seen);
                assert(!map_of(seen).contains_key(namespace@)) by {
                    if map_of(seen).contains_key(namespace@) {
                        let j = choose|j: int|
                            0 <= j < seen.len() && #[trigger] seen[j].0 == namespace@;
                        assert(new.pairs()[j].0 != new.pairs()[i as int].0);
                    }
                }
            }
            let ghost reached = current@;
            current.insert(namespace, larger);
            assert(current@ =~= merged_states(before, map_of(next)));
            i += 1;
        }
        assert(new.pairs().take(i as int) =~= new.pairs());
        self.router_federated_state = Some(current);
    }

    /// The message of the state ids of the namespaces, if any were ever received.
    pub fn encode_router_state(&self) -> (r: Option<Vec<u8>>)
        ensures
            optional_bytes(r) == router_state_message(*self),
    {
        match &self.router_federated_state {
            Some(states) => Some(states.encode_to_vec()),
            None => None,
        }
    }
}

impl Default for AlignmentContext {
    fn default() -> (r: AlignmentContext)
        ensures
            r.state_id == i64::MIN,
            r.router_federated_state is None,
    {
        AlignmentContext { state_id: i64::MIN, router_federated_state: None }
    }
}

// Laws

/// The state id of a namespace never goes back, and is one that was received.
pub proof fn law_states_never_go_back(
    current: Map<Seq<char>, i64>,
    new: Map<Seq<char>, i64>,
    namespace: Seq<char>,
)
    ensures
        merged_states(current, new).contains_key(namespace) <==> current.contains_key(namespace)
            || new.contains_key(namespace),
        current.contains_key(namespace) ==> merged_states(current, new)[namespace]
            >= current[namespace],
        new.contains_key(namespace) ==> merged_states(current, new)[namespace] >= new[namespace],
        merged_states(current, new).contains_key(namespace) ==> {
            ||| current.contains_key(namespace) && merged_states(current, new)[namespace]
                == current[namespace]
            ||| new.contains_key(namespace) && merged_states(current, new)[namespace]
                == new[namespace]
        },
{
}

/// It does not matter in which order two responses come in.
pub proof fn law_responses_commute(
    current: Map<Seq<char>, i64>,
    a: Map<Seq<char>, i64>,
    b: Map<Seq<char>, i64>,
)
    ensures
        merged_states(merged_states(current, a), b) == merged_states(merged_states(current, b), a),
{
    assert(merged_states(merged_states(current, a), b) =~= merged_states(
        merged_states(current, b),
        a,
    ));
}

/// A response that comes in twice changes nothing the second time.
pub proof fn law_responses_are_idempotent(current: Map<Seq<char>, i64>, a: Map<Seq<char>, i64>)
    ensures
        merged_states(merged_states(current, a), a) == merged_states(current, a),
{
    assert(merged_states(merged_states(current, a), a) =~= merged_states(current, a));
}

/// What is sent of the state ids of the namespaces is read back as it was.
pub proof fn law_states_round_trip(states: NamespaceStates)
    requires
        encoded_states(states.pairs()).len() <= u64::MAX,
    ensures
        decoded::<NamespaceStates>(encoded_states(states.pairs())) == Some(states@),
{
    lemma_states_read_back(Map::empty(), states.pairs());
    assert(Map::<Seq<char>, i64>::empty().union_prefer_right(states@) =~= states@);
}

/// A context that is told what it sends itself is left as it was.
pub proof fn law_own_states_change_nothing(states: NamespaceStates)
    requires
        encoded_states(states.pairs()).len() <= u64::MAX,
    ensures
        decoded::<NamespaceStates>(encoded_states(states.pairs())) matches Some(new)
            && merged_states(states@, new) == states@,
{
    law_states_round_trip(states);
    assert(merged_states(states@, states@) =~= states@);
}

/// Entries that are read replace those read before.
proof fn lemma_states_read_back(m: Map<Seq<char>, i64>, pairs: Seq<(Seq<char>, i64)>)
    requires
        encoded_states(pairs).len() <= u64::MAX,
    ensures
        with_fields::<NamespaceStates>(m, encoded_states(pairs)) == Some(
            m.union_prefer_right(map_of(pairs)),
        ),
    decreases pairs.len(),
{
    if pairs.len() == 0 {
        assert(m.union_prefer_right(map_of(pairs)) =~= m);
    } else {
        let (k, v) = pairs[0];
        let body = entry_body(k, v);
        let rest = encoded_states(pairs.skip(1));
        let s = encoded_states(pairs);
        lemma_bytes_field_round_trip(1, body, rest);
        lemma_entry_read_back(k, v);
        lemma_with_fields_step::<NamespaceStates>(
            m,
            s,
            1,
            LENGTH_DELIMITED,
            delimited(body) + rest,
            m.insert(k, v),
            rest,
        );
        lemma_states_read_back(m.insert(k, v), pairs.skip(1));
        lemma_map_of_front(pairs);
        assert(m.insert(k, v).union_prefer_right(map_of(pairs.skip(1))) =~= m.union_prefer_right(
            map_of(pairs),
        ));
    }
}

proof fn lemma_map_of_front(pairs: Seq<(Seq<char>, i64)>)
    requires
        pairs.len() > 0,
    ensures
        map_of(pairs) == Map::<Seq<char>, i64>::empty().insert(
            pairs[0].0,
            pairs[0].1,
        ).union_prefer_right(map_of(pairs.skip(1))),
    decreases pairs.len(),
{
    let first = Map::<Seq<char>, i64>::empty().insert(pairs[0].0, pairs[0].1);
    if pairs.len() == 1 {
        assert(pairs.drop_last() =~= Seq::empty());
        assert(pairs.skip(1) =~= Seq::empty());
        assert(map_of(pairs) =~= first.union_prefer_right(map_of(pairs.skip(1))));
    } else {
        lemma_map_of_front(pairs.drop_last());
        assert(pairs.drop_last().skip(1) =~= pairs.skip(1).drop_last());
        assert(map_of(pairs) =~= first.union_prefer_right(map_of(pairs.skip(1))));
    }
}

proof fn lemma_entry_read_back(k: Seq<char>, v: i64)
    requires
        entry_body(k, v).len() <= u64::MAX,
    ensures
        decoded::<StateEntry>(entry_body(k, v)) == Some((k, v)),
{
    let second = if v == 0 {
        Seq::empty()
    } else {
        integer_field(2, unsigned64(v))
    };
    let blank = StateEntry::blank();
    assert(with_fields::<StateEntry>((k, v), Seq::empty()) == Some((k, v)));
    assert(with_fields::<StateEntry>((k, 0i64), second) == Some((k, v))) by {
        if v != 0 {
            let n = unsigned64(v);
            lemma_integer_field_round_trip(2, n, Seq::empty());
            assert(second + Seq::<u8>::empty() =~= second);
            lemma_with_fields_step::<StateEntry>(
                (k, 0i64),
                second,
                2,
                VARINT,
                varint(n as nat) + Seq::empty(),
                (k, v),
                Seq::empty(),
            );
        }
    }
    if k.len() == 0 {
        assert(k =~= Seq::empty());
        assert(entry_body(k, v) =~= second);
    } else {
        lemma_string_field_round_trip(1, k, second);
        lemma_with_fields_step::<StateEntry>(
            blank,
            entry_body(k, v),
            1,
            LENGTH_DELIMITED,
            delimited(encode_utf8(k)) + second,
            (k, 0i64),
            second,
        );
    }
}

/// A response sets the state id where it comes with one. Where it comes with a message of the
/// namespaces, the context knows of each namespace the largest state id that it was told; where
/// the message cannot be read, or there is none, it knows what it knew.
pub proof fn law_context_after_a_response(
    before: AlignmentContext,
    after: AlignmentContext,
    state_id: Option<i64>,
    router_federated_state: Option<Seq<u8>>,
    namespace: Seq<char>,
)
    requires
        updated(before, after, state_id, router_federated_state),
    ensures
        state_id matches Some(v) ==> after.state_id == v,
        state_id is None ==> after.state_id == before.state_id,
        router_federated_state is None ==> after.router_federated_state
            == before.router_federated_state,
        router_federated_state matches Some(b) ==> match decoded::<NamespaceStates>(b) {
            None => after.router_federated_state == before.router_federated_state,
            Some(new) => {
                let known = match before.router_federated_state {
                    Some(states) => states@,
                    None => Map::empty(),
                };
                let knows = after.router_federated_state.unwrap()@;
                &&& after.router_federated_state is Some
                &&& knows.contains_key(namespace) <==> known.contains_key(namespace)
                    || new.contains_key(namespace)
                &&& known.contains_key(namespace) ==> knows[namespace] >= known[namespace]
                &&& new.contains_key(namespace) ==> knows[namespace] >= new[namespace]
                &&& knows.contains_key(namespace) ==> {
                    ||| known.contains_key(namespace) && knows[namespace] == known[namespace]
                    ||| new.contains_key(namespace) && knows[namespace] == new[namespace]
                }
            },
        },
        is_states_message(router_federated_state) <==> match router_federated_state {
            Some(b) => decoded::<NamespaceStates>(b) is Some,
            None => true,
        },
{
}

/// A context tells the state ids of its namespaces, all of them and nothing else, where it was
/// ever told any.
pub proof fn law_sent_states_are_the_known_ones(context: AlignmentContext)
    requires
        router_state_message(context) matches Some(b) ==> b.len() <= u64::MAX,
    ensures
        router_state_message(context) is Some <==> context.router_federated_state is Some,
        router_state_message(context) matches Some(b) ==> decoded::<NamespaceStates>(b) == Some(
            context.router_federated_state.unwrap()@,
        ),
{
    if let Some(states) = context.router_federated_state {
        law_states_round_trip(states);
    }
}

/// What is sent of the namespaces is one field with the number 1 for each, in which the name is
/// field 1 and the state id is field 2, but for an empty name and a state id of 0.
pub proof fn law_states_on_the_wire(pairs: Seq<(Seq<char>, i64)>, k: int)
    requires
        encoded_states(pairs).len() <= u64::MAX,
        0 <= k < pairs.len(),
    ensures
        read_fields(encoded_states(pairs)) matches Some(fields) && {
            &&& fields.len() == pairs.len()
            &&& fields[k].0 == 1
            &&& fields[k].1 matches FieldValue::Raw(entry)
            &&& read_fields(entry) == Some(
                optional_field(
                    1,
                    if pairs[k].0.len() == 0 {
                        None
                    } else {
                        text(Some(pairs[k].0))
                    },
                ) + optional_field(
                    2,
                    if pairs[k].1 == 0 {
                        None
                    } else {
                        signed(Some(pairs[k].1))
                    },
                ),
            )
        },
    decreases pairs.len(),
{
    let rest = encoded_states(pairs.skip(1));
    let entry = entry_body(pairs[0].0, pairs[0].1);
    lemma_states_fields(pairs);
    lemma_states_fields(pairs.skip(1));
    let more = read_fields(rest).unwrap();
    lemma_read_bytes_field(1, entry, rest, more);
    if k == 0 {
        lemma_entry_fields(pairs[0].0, pairs[0].1);
    } else {
        law_states_on_the_wire(pairs.skip(1), k - 1);
    }
}

proof fn lemma_states_fields(pairs: Seq<(Seq<char>, i64)>)
    requires
        encoded_states(pairs).len() <= u64::MAX,
    ensures
        read_fields(encoded_states(pairs)) matches Some(fields) && fields.len() == pairs.len(),
    decreases pairs.len(),
{
    if pairs.len() > 0 {
        let rest = encoded_states(pairs.skip(1));
        lemma_states_fields(pairs.skip(1));
        lemma_read_bytes_field(
            1,
            entry_body(pairs[0].0, pairs[0].1),
            rest,
            read_fields(rest).unwrap(),
        );
    }
}

proof fn lemma_entry_fields(namespace: Seq<char>, state_id: i64)
    requires
        entry_body(namespace, state_id).len() <= u64::MAX,
    ensures
        read_fields(entry_body(namespace, state_id)) == Some(
            optional_field(
                1,
                if namespace.len() == 0 {
                    None
                } else {
                    text(Some(namespace))
                },
            ) + optional_field(
                2,
                if state_id == 0 {
                    None
                } else {
                    signed(Some(state_id))
                },
            ),
        ),
{
    let none = Seq::<u8>::empty();
    let name: Option<Seq<char>> = if namespace.len() == 0 {
        None
    } else {
        Some(namespace)
    };
    let id: Option<u64> = if state_id == 0 {
        None
    } else {
        Some(unsigned64(state_id))
    };
    let s2 = optional_integer_field(2, id) + none;
    lemma_read_optional_integer(2, id, none, Seq::empty());
    assert(entry_body(namespace, state_id) =~= optional_string_field(1, name) + s2);
    lemma_read_optional_string(1, name, s2, optional_field(2, integer(id)) + Seq::empty());
    assert(optional_field(2, integer(id)) + Seq::<Field>::empty() =~= optional_field(
        2,
        integer(id),
    ));
}

/// Each field of an entry sets what it stands for, and each entry the state id of its namespace,
/// whatever was read before. A field that there is not is passed over.
pub proof fn law_states_fields(
    m: Map<Seq<char>, i64>,
    e: (Seq<char>, i64),
    tag: u32,
    v: u64,
    w: u32,
    t: Seq<char>,
    b: Seq<u8>,
    rest: Seq<u8>,
)
    requires
        1 <= tag < 0x2000_0000,
        b.len() <= u64::MAX,
        encode_utf8(t).len() <= u64::MAX,
    ensures
        with_fields::<StateEntry>(e, string_field(1, t) + rest) == with_fields::<StateEntry>(
            (t, e.1),
            rest,
        ),
        with_fields::<StateEntry>(e, integer_field(2, v) + rest) == with_fields::<StateEntry>(
            (e.0, signed64(v)),
            rest,
        ),
        tag > 2 ==> passes_over::<StateEntry>(e, tag, v, w, b, rest),
        tag == 1 ==> refuses_integer::<StateEntry>(e, tag, v, rest),
        tag == 2 ==> refuses_bytes::<StateEntry>(e, tag, b, rest),
        decoded::<StateEntry>(Seq::empty()) == Some((Seq::<char>::empty(), 0i64)),
        with_fields::<NamespaceStates>(m, bytes_field(1, b) + rest) == match decoded::<StateEntry>(
            b,
        ) {
            Some((namespace, state_id)) => with_fields::<NamespaceStates>(
                m.insert(namespace, state_id),
                rest,
            ),
            None => None,
        },
        tag > 1 ==> passes_over::<NamespaceStates>(m, tag, v, w, b, rest),
        decoded::<NamespaceStates>(Seq::empty()) == Some(Map::<Seq<char>, i64>::empty()),
{
    lemma_string_first::<StateEntry>(e, 1, t, rest);
    lemma_integer_first::<StateEntry>(e, 2, v, rest);
    lemma_any_first::<StateEntry>(e, tag, v, w, b, rest);
    lemma_bytes_first::<NamespaceStates>(m, 1, b, rest);
    lemma_any_first::<NamespaceStates>(m, tag, v, w, b, rest);
}

/// What an entry says is what it holds.
pub proof fn law_entries_say_what_they_hold(e: StateEntry)
    ensures
        e@ == (e.namespace@, e.state_id),
{
}

} // verus!
