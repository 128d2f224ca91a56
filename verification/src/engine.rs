use vstd::prelude::*;

use crate::amount::round4;
use crate::ledger::{
    client_step, lemma_step_locked_monotonic, lemma_step_preserves_balance,
    lemma_step_preserves_client_id, lemma_step_preserves_range, new_client_view, AccountStatus,
    Client, ClientView, Input, Operation, Transaction,
};

verus! {

broadcast use vstd::std_specs::hash::group_hash_axioms;

/// The event stream processor: routes each input record to the client it
/// names, creating that client on first sight, and at the end collects one
/// rounded account status per client.
pub struct Engine {
    clients: std::collections::HashMap<u16, Client>,
    ids: Vec<u16>,
}

/// One processed record: the named client's state — a fresh one on first
/// sight — moves by the step its operation names.
pub open spec fn engine_step(m: Map<u16, ClientView>, input: Input) -> Map<u16, ClientView> {
    let c = if m.contains_key(input.client_id) {
        m[input.client_id]
    } else {
        new_client_view(input.client_id)
    };
    m.insert(input.client_id, client_step(c, input))
}

/// A whole decoded stream, processed in arrival order.
pub open spec fn engine_run(m: Map<u16, ClientView>, inputs: Seq<Input>) -> Map<u16, ClientView>
    decreases inputs.len(),
{
    if inputs.len() == 0 {
        m
    } else {
        engine_step(engine_run(m, inputs.drop_last()), inputs.last())
    }
}

/// Every client's books balance: `total == available + held`.
pub open spec fn all_balanced(m: Map<u16, ClientView>) -> bool {
    forall|id: u16| #[trigger] m.contains_key(id) ==> m[id].balanced()
}

/// The final record emitted for a client: the same state with all three
/// balances rounded to four fractional digits.
pub open spec fn is_rounded_status(s: AccountStatus, id: u16, c: ClientView) -> bool {
    &&& s.client_id == id
    &&& s.available@ == round4(c.available)
    &&& s.held@ == round4(c.held)
    &&& s.total@ == round4(c.total)
    &&& s.locked == c.locked
}

impl View for Engine {
    type V = Map<u16, ClientView>;

    closed spec fn view(&self) -> Map<u16, ClientView> {
        self.clients@.map_values(|c: Client| c@)
    }
}

impl Engine {
    /// The processor's invariant, established by `new` and kept by
    /// `process`: the client roster and the map agree, and every client's
    /// state is balanced, on the grid, and owned by its key.
    pub closed spec fn wf(self) -> bool {
        &&& self.ids@.no_duplicates()
        &&& (forall|id: u16| #[trigger] self.clients@.contains_key(id) ==> self.ids@.contains(id))
        &&& (forall|id: u16| #[trigger] self.ids@.contains(id) ==> self.clients@.contains_key(id))
        &&& (forall|id: u16| #[trigger] self.clients@.contains_key(id) ==> {
            let c = self.clients@[id]@;
            c.client_id == id && c.balanced() && c.in_range()
        })
    }

    pub fn new() -> (r: Engine)
        ensures
            r@ == Map::<u16, ClientView>::empty(),
            r.wf(),
    {
        let r = Engine { clients: std::collections::HashMap::new(), ids: Vec::new() };
        proof {
            assert(r@ =~= Map::<u16, ClientView>::empty());
        }
        r
    }

    /// Processes one input record: exactly the step `engine_step` names,
    /// and nothing else. The books of every client stay balanced, and a
    /// locked client stays locked.
    pub fn process(&mut self, input: Input)
        requires
            old(self).wf(),
        ensures
            final(self).wf(),
            final(self)@ == engine_step(old(self)@, input),
            all_balanced(final(self)@),
            forall|id: u16|
                old(self)@.contains_key(id) && old(self)@[id].locked ==> {
                    &&& #[trigger] final(self)@.contains_key(id)
                    &&& final(self)@[id].locked
                },
    {
        let id = input.client_id;
        let mut client = match self.clients.remove(&id) {
            Some(c) => c,
            None => {
                self.ids.push(id);
                Client::new(id)
            },
        };
        let ghost c0 = client@;
        let transaction = Transaction::from_input(input);
        match input.operation {
            Operation::Deposit => client.deposit(transaction),
            Operation::Withdrawal => client.withdrawal(transaction),
            Operation::Dispute => client.dispute(transaction),
            Operation::Resolve => client.resolve(transaction),
            Operation::Chargeback => client.chargeback(transaction),
        }
        self.clients.insert(id, client);
        proof {
            lemma_step_preserves_balance(c0, input);
            lemma_step_preserves_range(c0, input);
            lemma_step_preserves_client_id(c0, input);
            lemma_step_locked_monotonic(c0, input);
            assert(self@ =~= engine_step(old(self)@, input));
            let ids0 = old(self).ids@;
            let ids1 = self.ids@;
            let m0 = old(self).clients@;
            let m1 = self.clients@;
            if m0.contains_key(id) {
                assert(ids1 == ids0);
            } else {
                assert(ids1 == ids0.push(id));
                assert(!ids0.contains(id));
                assert forall|j1: int, j2: int|
                    0 <= j1 < j2 < ids1.len() implies ids1[j1] != ids1[j2] by {
                    if j2 < ids0.len() {
                        assert(ids0[j1] != ids0[j2]);
                    } else {
                        assert(ids1[j2] == id);
                        assert(ids0.contains(ids0[j1]));
                    }
                }
            }
            assert forall|x: u16| #[trigger] m1.contains_key(x) implies ids1.contains(x) by {
                if x == id {
                    if m0.contains_key(id) {
                        assert(ids0.contains(id));
                    } else {
                        assert(ids1[ids1.len() - 1] == id);
                    }
                } else {
                    assert(m0.contains_key(x));
                    assert(ids0.contains(x));
                    let j = choose|j: int| 0 <= j < ids0.len() && ids0[j] == x;
                    assert(ids1[j] == x);
                }
            }
            assert forall|x: u16| #[trigger] ids1.contains(x) implies m1.contains_key(x) by {
                if x != id {
                    let j = choose|j: int| 0 <= j < ids1.len() && ids1[j] == x;
                    assert(ids0[j] == x);
                    assert(ids0.contains(x));
                }
            }
        }
    }

    /// Processes a whole decoded stream in arrival order: exactly the fold
    /// of `engine_step` over it. Every client's books stay balanced at
    /// every point, and no later event unlocks a locked client.
    #[verifier::loop_isolation(false)]
    pub fn process_all(&mut self, inputs: &Vec<Input>)
        requires
            old(self).wf(),
        ensures
            final(self).wf(),
            final(self)@ == engine_run(old(self)@, inputs@),
            all_balanced(final(self)@),
            forall|id: u16|
                old(self)@.contains_key(id) && old(self)@[id].locked ==> {
                    &&& #[trigger] final(self)@.contains_key(id)
                    &&& final(self)@[id].locked
                },
    {
        let n = inputs.len();
        let mut i: usize = 0;
        while i < n
            invariant
                i <= n,
                self.wf(),
                self@ == engine_run(old(self)@, inputs@.take(i as int)),
                forall|id: u16|
                    old(self)@.contains_key(id) && old(self)@[id].locked ==> {
                        &&& #[trigger] self@.contains_key(id)
                        &&& self@[id].locked
                    },
            decreases n - i,
        {
            self.process(inputs[i]);
            proof {
                assert(inputs@.take(i as int + 1).drop_last() =~= inputs@.take(i as int));
            }
            i = i + 1;
        }
        proof {
            assert(inputs@.take(n as int) =~= inputs@);
            assert forall|id: u16|
                old(self)@.contains_key(id) && old(self)@[id].locked implies {
                &&& self@.contains_key(id)
                &&& self@[id].locked
            } by {
                assert(self@.contains_key(id));
            }
        }
    }

    /// The present account status of one client, unrounded.
    pub fn account_of(&self, client_id: u16) -> (r: Option<AccountStatus>)
        requires
            self.wf(),
        ensures
            match r {
                Some(s) => {
                    &&& self@.contains_key(client_id)
                    &&& s.client_id == client_id
                    &&& s.available@ == self@[client_id].available
                    &&& s.held@ == self@[client_id].held
                    &&& s.total@ == self@[client_id].total
                    &&& s.locked == self@[client_id].locked
                },
                None => !self@.contains_key(client_id),
            },
    {
        match self.clients.get(&client_id) {
            Some(c) => Some(c.account_status),
            None => None,
        }
    }

    /// Collects the final account status of every client, each with its
    /// balances rounded to four fractional digits: one record per client,
    /// every client present, no client twice.
    pub fn into_account_statuses(self) -> (r: Vec<AccountStatus>)
        requires
            self.wf(),
        ensures
            r@.len() == self@.dom().len(),
            forall|i: int|
                0 <= i < r@.len() ==> {
                    let s = #[trigger] r@[i];
                    &&& self@.contains_key(s.client_id)
                    &&& is_rounded_status(s, s.client_id, self@[s.client_id])
                },
            forall|id: u16| #[trigger]
                self@.contains_key(id) ==> exists|i: int|
                    0 <= i < r@.len() && #[trigger] r@[i].client_id == id,
            forall|i: int, j: int|
                0 <= i < j < r@.len() ==> r@[i].client_id != r@[j].client_id,
    {
        let mut this = self;
        let ghost m0 = this@;
        let ghost ids0 = this.ids@;
        proof {
            assert forall|j: int| 0 <= j < ids0.len() implies m0.contains_key(ids0[j]) by {
                assert(ids0.contains(ids0[j]));
            }
            assert forall|id: u16| m0.contains_key(id) implies ids0.contains(id) by {
                assert(this.clients@.contains_key(id));
            }
            assert(m0.dom() =~= ids0.to_set());
            ids0.unique_seq_to_set();
        }
        let n = this.ids.len();
        let mut out: Vec<AccountStatus> = Vec::new();
        let mut i: usize = 0;
        while i < n
            invariant
                i <= n,
                n == ids0.len(),
                this.ids@ == ids0,
                ids0.no_duplicates(),
                forall|j: int|
                    i <= j < n ==> {
                        &&& this.clients@.contains_key(#[trigger] ids0[j])
                        &&& this.clients@[ids0[j]]@ == m0[ids0[j]]
                        &&& m0.contains_key(ids0[j])
                        &&& m0[ids0[j]].client_id == ids0[j]
                    },
                out@.len() == i,
                forall|k: int|
                    0 <= k < i ==> {
                        &&& (#[trigger] out@[k]).client_id == ids0[k]
                        &&& m0.contains_key(ids0[k])
                        &&& is_rounded_status(out@[k], ids0[k], m0[ids0[k]])
                    },
            decreases n - i,
        {
            let id = this.ids[i];
            match this.clients.remove(&id) {
                Some(mut client) => {
                    client.account_status.round_and_normalize();
                    out.push(client.into_account_status());
                },
                None => {
                    proof {
                        assert(false);
                    }
                },
            }
            i = i + 1;
        }
        proof {
            assert forall|id: u16| m0.contains_key(id) implies exists|k: int|
                0 <= k < out@.len() && #[trigger] out@[k].client_id == id by {
                let j = ids0.index_of(id);
                assert(ids0.contains(id));
                assert(out@[j].client_id == id);
            }
            assert forall|k1: int, k2: int| 0 <= k1 < k2 < out@.len() implies out@[k1].client_id
                != out@[k2].client_id by {
                assert(out@[k1].client_id == ids0[k1]);
                assert(out@[k2].client_id == ids0[k2]);
            }
        }
        out
    }
}

} // verus!
