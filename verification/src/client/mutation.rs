//! Mutations built on a client.

use vstd::prelude::*;
use vstd::string::*;
use crate::clock::{duration_from_secs, elapsed_between, nanos_of, system_now, unix_epoch};
use crate::base::{AgentId, CommitReceipt, KnowledgeMutation, MutationId, MutationOp, ResourceId};
use crate::client::error::VantageError;
use crate::client::VantageClient;
use crate::text::{hex, u128_to_hex};

verus! {

/// The nanoseconds of the wall clock since the Unix epoch, zero where the
/// clock reads earlier.
fn nanos_since_unix_epoch() -> u128 {
    let now = system_now();
    let epoch = unix_epoch();
    let d = match elapsed_between(&now, &epoch) {
        Some(d) => d,
        None => duration_from_secs(0),
    };
    nanos_of(&d)
}

/// A mutation under construction.
pub struct MutationBuilder<'a> {
    client: &'a mut VantageClient,
    resource_id: String,
    mutation_id: Option<String>,
    payload: Option<String>,
    is_delete: bool,
}

/// The mutation a builder's settings give, with `id` as identifier and
/// `t` as time.
pub open spec fn built_mutation(
    actor: Seq<char>,
    resource: Seq<char>,
    id: Seq<char>,
    payload: Option<String>,
    is_delete: bool,
    m: KnowledgeMutation,
) -> bool {
    &&& m.mutation_id@ == id
    &&& m.actor.0@ == actor
    &&& if is_delete {
        m.op matches MutationOp::Delete { resource_id } && resource_id@ == resource
    } else {
        m.op matches MutationOp::Insert { resource_id, payload: p } && resource_id@ == resource
            && p@ == match payload {
                Some(x) => x@,
                None => Seq::<char>::empty(),
            }
    }
}

impl<'a> MutationBuilder<'a> {
    pub closed spec fn spec_client(&self) -> VantageClient {
        *self.client
    }

    /// The borrow of the client.
    pub closed spec fn spec_client_ref(&self) -> &'a mut VantageClient {
        self.client
    }

    pub closed spec fn spec_resource(&self) -> String {
        self.resource_id
    }

    pub closed spec fn spec_mutation_id(&self) -> Option<String> {
        self.mutation_id
    }

    pub closed spec fn spec_payload(&self) -> Option<String> {
        self.payload
    }

    pub closed spec fn spec_is_delete(&self) -> bool {
        self.is_delete
    }

    pub fn new(client: &'a mut VantageClient) -> (r: Self)
        ensures
            r.spec_client() == *old(client),
            r.spec_resource()@ == Seq::<char>::empty(),
            r.spec_mutation_id() is None,
            r.spec_payload() is None,
            !r.spec_is_delete(),
    {
        Self { client, resource_id: String::new(), mutation_id: None, payload: None, is_delete: false }
    }

    /// The mutation of resource `id`.
    pub fn resource(self, id: &str) -> (r: Self)
        ensures
            r.spec_client() == self.spec_client(),
            r.spec_resource()@ == id@,
            r.spec_mutation_id() == self.spec_mutation_id(),
            r.spec_payload() == self.spec_payload(),
            r.spec_is_delete() == self.spec_is_delete(),
    {
        let mut b = self;
        b.resource_id = String::from_str(id);
        b
    }

    /// The mutation with identifier `id`.
    pub fn id(self, id: &str) -> (r: Self)
        ensures
            r.spec_client() == self.spec_client(),
            r.spec_resource() == self.spec_resource(),
            r.spec_mutation_id() matches Some(x) && x@ == id@,
            r.spec_payload() == self.spec_payload(),
            r.spec_is_delete() == self.spec_is_delete(),
    {
        let mut b = self;
        b.mutation_id = Some(String::from_str(id));
        b
    }

    /// An insertion of `payload`.
    pub fn insert(self, payload: &str) -> (r: Self)
        ensures
            r.spec_client() == self.spec_client(),
            r.spec_resource() == self.spec_resource(),
            r.spec_mutation_id() == self.spec_mutation_id(),
            r.spec_payload() matches Some(x) && x@ == payload@,
            !r.spec_is_delete(),
    {
        let mut b = self;
        b.payload = Some(String::from_str(payload));
        b.is_delete = false;
        b
    }

    /// A deletion.
    pub fn delete(self) -> (r: Self)
        ensures
            r.spec_client() == self.spec_client(),
            r.spec_resource() == self.spec_resource(),
            r.spec_mutation_id() == self.spec_mutation_id(),
            r.spec_payload() is None,
            r.spec_is_delete(),
    {
        let mut b = self;
        b.is_delete = true;
        b.payload = None;
        b
    }

    /// Builds the mutation, by the client's identity, now, with the given
    /// identifier or `mut_` and the hexadecimal nanoseconds since the Unix
    /// epoch, and commits it through the client.
    pub fn execute(self) -> (r: Result<CommitReceipt, VantageError>)
        requires
            self.spec_client().wf(),
            self.spec_client().spec_sequence() < u64::MAX,
        ensures
            exists|m: KnowledgeMutation, id: Seq<char>| {
                &&& built_mutation(self.spec_client().spec_config().identity@, self.spec_resource()@, id,
                    self.spec_payload(), self.spec_is_delete(), m)
                &&& match self.spec_mutation_id() {
                    Some(x) => id == x@,
                    None => exists|n: nat| id == "mut_"@ + hex(n),
                }
                &&& VantageClient::execute_outcome(self.spec_client(), *final(self.spec_client_ref()), m, r)
            },
    {
        let b = self;
        let ghost b0 = b;
        let resource_id = ResourceId(b.resource_id);
        let ghost mut n: nat = 0;
        let mutation_id = match b.mutation_id {
            Some(id) => id,
            None => {
                let mut s = String::from_str("mut_");
                let nanos = nanos_since_unix_epoch();
                proof { n = nanos as nat; }
                let h = u128_to_hex(nanos);
                s.append(h.as_str());
                s
            },
        };
        let actor = AgentId(b.client.config().identity.clone());
        let op = if b.is_delete {
            MutationOp::Delete { resource_id }
        } else {
            MutationOp::Insert {
                resource_id,
                payload: match b.payload {
                    Some(p) => p,
                    None => String::new(),
                },
            }
        };
        let mutation = KnowledgeMutation { mutation_id: MutationId(mutation_id), actor, op, timestamp: system_now() };
        assert(built_mutation(b0.spec_client().spec_config().identity@, b0.spec_resource()@, mutation.mutation_id@,
            b0.spec_payload(), b0.spec_is_delete(), mutation));
        assert(match b0.spec_mutation_id() {
            Some(x) => mutation.mutation_id@ == x@,
            None => mutation.mutation_id@ == "mut_"@ + hex(n),
        });
        b.client.execute(mutation)
    }
}

} // verus!
